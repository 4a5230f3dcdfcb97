//! From the arguments of a command to what it runs with, and from its result
//! to the status of the program.
use vstd::prelude::*;

use crate::cli::{
    flag_specs_for, lemma_flag_sets, report_flag_error, spec_exec_flags, spec_flags_for, spec_pipe_flags,
    spec_relay_flags, spec_tunnel_flags, FlagReport, DEFAULT_LISTEN_ADDR,
};
use crate::command::{
    config_fault, opt_view, peer_hint_block, resolve_or_generate_code_from, resolve_relay,
    result_view, spec_code_or_fresh, spec_hint_block, spec_peer_command, spec_resolve_relay,
    tunnel_peer_command, validate_tunnel_config,
};
use crate::exec::ExecError;
use crate::flags::{
    parse_flags, same_text, spec_bool, spec_flagset_usage, spec_parse_flags, spec_slice,
    spec_string, FlagsErrorView, SettingView,
};
use crate::pipe::PipeError;
use crate::room::views_of;
use crate::text::join2;
use crate::tunnel::TunnelError;

verus! {

/// Status of a program that an interrupt has ended.
pub const EXIT_CODE_INTERRUPT: i32 = 130;

/// What the program is asked to do.
#[derive(Clone, Copy, Debug, PartialEq, Eq, Structural)]
pub enum Command {
    /// Print the help text.
    Help,
    /// Print the version.
    Version,
    Relay,
    Exec,
    Tunnel,
    Pipe,
}

/// The command that the first argument names; help for any other.
pub open spec fn spec_command(args: Seq<Seq<char>>) -> Command {
    if args.len() == 0 {
        Command::Help
    } else if args[0] == "-v"@ || args[0] == "--version"@ {
        Command::Version
    } else if args[0] == "relay"@ {
        Command::Relay
    } else if args[0] == "exec"@ {
        Command::Exec
    } else if args[0] == "tunnel"@ {
        Command::Tunnel
    } else if args[0] == "pipe"@ {
        Command::Pipe
    } else {
        Command::Help
    }
}

/// The command to run.
pub fn command_of(args: &[String]) -> (c: Command)
    ensures
        c == spec_command(views_of(args@)),
{
    if args.len() == 0 {
        return Command::Help;
    }
    let first = args[0].as_str();
    assert(views_of(args@)[0] == first@);
    if same_text(first, "-v") || same_text(first, "--version") {
        Command::Version
    } else if same_text(first, "relay") {
        Command::Relay
    } else if same_text(first, "exec") {
        Command::Exec
    } else if same_text(first, "tunnel") {
        Command::Tunnel
    } else if same_text(first, "pipe") {
        Command::Pipe
    } else {
        Command::Help
    }
}

/// Why a command does not run: its flags, or another error. The status of the
/// program is 1 then.
#[derive(Debug)]
pub enum Refusal {
    Flags(FlagReport),
    Message(String),
}

impl Refusal {
    /// This is what is said of the flags of `set_name` that gave `e`.
    pub open spec fn of_flags(&self, set_name: Seq<char>, e: FlagsErrorView) -> bool {
        &&& self is Flags
        &&& match e {
            FlagsErrorView::Help => self->Flags_0.usage is Some && self->Flags_0.usage->0@
                == spec_flagset_usage(set_name, spec_flags_for(set_name)) && self->Flags_0.error@
                == "flag: flag: help requested"@,
            FlagsErrorView::Message(m) => self->Flags_0.usage is None && self->Flags_0.error@
                == "flag: "@ + m,
        }
    }

    /// This is the message `m`.
    pub open spec fn says(&self, m: Seq<char>) -> bool {
        self is Message && self->Message_0@ == m
    }
}

/// What a relay runs with.
#[derive(Debug)]
pub struct RelayPlan {
    pub debug: bool,
    pub listen: String,
}

/// The address that a relay listens on: the one given, or the default.
pub open spec fn spec_listen(addr: Seq<char>) -> Seq<char> {
    if addr.len() == 0 {
        DEFAULT_LISTEN_ADDR@
    } else {
        addr
    }
}

/// Reads the arguments of `relay`.
pub fn plan_relay(args: &[String]) -> (r: Result<RelayPlan, Refusal>)
    ensures
        match spec_parse_flags(views_of(args@), spec_relay_flags()) {
            Err(e) => r is Err && r->Err_0.of_flags("relay"@, e),
            Ok(v) => r is Ok && r->Ok_0.debug == spec_bool(v, "debug"@) && r->Ok_0.listen@
                == spec_listen(spec_string(v, "listen"@)),
        },
{
    proof {
        lemma_flag_sets();
    }
    let specs = flag_specs_for("relay");
    match parse_flags(args, specs.as_slice()) {
        Err(e) => Err(Refusal::Flags(report_flag_error("relay", &e))),
        Ok(v) => {
            let given = v.string("listen");
            let listen = if given.as_str().is_empty() {
                DEFAULT_LISTEN_ADDR.to_owned()
            } else {
                given
            };
            Ok(RelayPlan { debug: v.bool("debug"), listen })
        },
    }
}

/// What a pipe runs with.
#[derive(Debug)]
pub struct PipePlan {
    pub debug: bool,
    pub relay: String,
    pub stats: bool,
    pub code: String,
    /// What is printed for the peer when the code is fresh.
    pub hint: Option<String>,
}

/// What is printed when the code `c` is fresh: how the peer runs `command`.
pub open spec fn spec_simple_hint(c: (Seq<char>, bool), command: Seq<char>) -> Option<Seq<char>> {
    if c.1 {
        Some(spec_hint_block("QVOLE_CODE="@ + c.0 + command))
    } else {
        None
    }
}

/// A text that may be missing, by its characters.
pub open spec fn text_view(s: Option<String>) -> Option<Seq<char>> {
    match s {
        Some(t) => Some(t@),
        None => None,
    }
}

fn simple_hint(code: &str, generated: bool, command: &str) -> (r: Option<String>)
    ensures
        text_view(r) == spec_simple_hint((code@, generated), command@),
{
    if generated {
        let mut s = join2("QVOLE_CODE=", code);
        s.push_str(command);
        Some(peer_hint_block(s.as_str()))
    } else {
        None
    }
}

impl PipePlan {
    /// The flags `v` with the code `c`.
    pub open spec fn is_of(&self, v: Seq<SettingView>, c: (Seq<char>, bool)) -> bool {
        &&& self.debug == spec_bool(v, "debug"@)
        &&& self.relay@ == spec_resolve_relay(spec_string(v, "relay"@))
        &&& self.stats == spec_bool(v, "stats"@)
        &&& self.code@ == c.0
        &&& text_view(self.hint) == spec_simple_hint(c, " qvole pipe"@)
    }
}

/// Reads the arguments of `pipe`. The code comes from them, from the
/// environment, or is the fresh one.
pub fn plan_pipe(args: &[String], env_code: Option<&str>, fresh: Result<String, String>) -> (r:
    Result<PipePlan, Refusal>)
    ensures
        match spec_parse_flags(views_of(args@), spec_pipe_flags()) {
            Err(e) => r is Err && r->Err_0.of_flags("qvole"@, e),
            Ok(v) => match spec_code_or_fresh(
                spec_string(v, "code"@),
                opt_view(env_code),
                result_view(fresh),
            ) {
                Err(m) => r is Err && r->Err_0.says(m),
                Ok(c) => r is Ok && r->Ok_0.is_of(v, c),
            },
        },
{
    proof {
        lemma_flag_sets();
    }
    let specs = flag_specs_for("qvole");
    let v = match parse_flags(args, specs.as_slice()) {
        Err(e) => {
            return Err(Refusal::Flags(report_flag_error("qvole", &e)));
        },
        Ok(v) => v,
    };
    let flag = v.string("code");
    match resolve_or_generate_code_from(flag.as_str(), env_code, fresh) {
        Err(m) => Err(Refusal::Message(m)),
        Ok(c) => {
            let hint = simple_hint(c.0.as_str(), c.1, " qvole pipe");
            Ok(
                PipePlan {
                    debug: v.bool("debug"),
                    relay: resolve_relay(v.string("relay").as_str()),
                    stats: v.bool("stats"),
                    code: c.0,
                    hint,
                },
            )
        },
    }
}

/// What `exec` runs with.
#[derive(Debug)]
pub struct ExecPlan {
    pub debug: bool,
    pub relay: String,
    pub command: String,
    /// There is a command to run here.
    pub cmd_mode: bool,
    pub code: String,
    pub hint: Option<String>,
}

impl ExecPlan {
    /// The flags `v` with the code `c`.
    pub open spec fn is_of(&self, v: Seq<SettingView>, c: (Seq<char>, bool)) -> bool {
        &&& self.debug == spec_bool(v, "debug"@)
        &&& self.relay@ == spec_resolve_relay(spec_string(v, "relay"@))
        &&& self.command@ == spec_string(v, "cmd"@)
        &&& self.cmd_mode == (spec_string(v, "cmd"@).len() > 0)
        &&& self.code@ == c.0
        &&& text_view(self.hint) == spec_simple_hint(c, " qvole exec"@)
    }
}

/// Reads the arguments of `exec`.
pub fn plan_exec(args: &[String], env_code: Option<&str>, fresh: Result<String, String>) -> (r:
    Result<ExecPlan, Refusal>)
    ensures
        match spec_parse_flags(views_of(args@), spec_exec_flags()) {
            Err(e) => r is Err && r->Err_0.of_flags("exec"@, e),
            Ok(v) => match spec_code_or_fresh(
                spec_string(v, "code"@),
                opt_view(env_code),
                result_view(fresh),
            ) {
                Err(m) => r is Err && r->Err_0.says(m),
                Ok(c) => r is Ok && r->Ok_0.is_of(v, c),
            },
        },
{
    proof {
        lemma_flag_sets();
    }
    let specs = flag_specs_for("exec");
    let v = match parse_flags(args, specs.as_slice()) {
        Err(e) => {
            return Err(Refusal::Flags(report_flag_error("exec", &e)));
        },
        Ok(v) => v,
    };
    let flag = v.string("code");
    match resolve_or_generate_code_from(flag.as_str(), env_code, fresh) {
        Err(m) => Err(Refusal::Message(m)),
        Ok(c) => {
            let hint = simple_hint(c.0.as_str(), c.1, " qvole exec");
            let command = v.string("cmd");
            Ok(
                ExecPlan {
                    debug: v.bool("debug"),
                    relay: resolve_relay(v.string("relay").as_str()),
                    cmd_mode: !command.as_str().is_empty(),
                    command,
                    code: c.0,
                    hint,
                },
            )
        },
    }
}

/// What `tunnel` runs with.
#[derive(Debug)]
pub struct TunnelPlan {
    pub debug: bool,
    pub relay: String,
    pub allow_all: bool,
    pub local_tunnels: Vec<String>,
    pub remote_tunnels: Vec<String>,
    pub allow_listen: Vec<String>,
    pub allow_forward: Vec<String>,
    pub code: String,
    pub hint: Option<String>,
}

/// What is printed for the peer of a tunnel: the command that allows it what
/// this side asks for, or the bare command.
pub open spec fn spec_tunnel_hint(
    c: (Seq<char>, bool),
    local: Seq<Seq<char>>,
    remote: Seq<Seq<char>>,
) -> Option<Seq<char>> {
    match spec_peer_command(c.0, local, remote) {
        Some(cmd) => if !c.1 {
            None
        } else if cmd.len() > 0 {
            Some(spec_hint_block(cmd))
        } else {
            spec_simple_hint(c, " qvole tunnel"@)
        },
        None => None,
    }
}

impl TunnelPlan {
    /// The flags `v`.
    pub open spec fn is_of(&self, v: Seq<SettingView>) -> bool {
        &&& self.debug == spec_bool(v, "debug"@)
        &&& self.relay@ == spec_resolve_relay(spec_string(v, "relay"@))
        &&& self.allow_all == spec_bool(v, "a"@)
        &&& views_of(self.local_tunnels@) == spec_slice(v, "L"@)
        &&& views_of(self.remote_tunnels@) == spec_slice(v, "R"@)
        &&& views_of(self.allow_listen@) == spec_slice(v, "aL"@)
        &&& views_of(self.allow_forward@) == spec_slice(v, "aF"@)
    }

    /// What is wrong with the tunnels and with what is allowed.
    pub open spec fn fault(&self) -> Option<Seq<char>> {
        config_fault(
            views_of(self.local_tunnels@),
            views_of(self.remote_tunnels@),
            self.allow_listen@,
            self.allow_forward@,
        )
    }
}

/// The flags of `tunnel`, before they are checked.
pub fn read_tunnel_flags(args: &[String]) -> (r: Result<(TunnelPlan, String), Refusal>)
    ensures
        match spec_parse_flags(views_of(args@), spec_tunnel_flags()) {
            Err(e) => r is Err && r->Err_0.of_flags("tunnel"@, e),
            Ok(v) => r is Ok && r->Ok_0.0.is_of(v) && r->Ok_0.1@ == spec_string(v, "code"@)
                && r->Ok_0.0.code@.len() == 0 && r->Ok_0.0.hint is None,
        },
{
    proof {
        lemma_flag_sets();
    }
    let specs = flag_specs_for("tunnel");
    match parse_flags(args, specs.as_slice()) {
        Err(e) => Err(Refusal::Flags(report_flag_error("tunnel", &e))),
        Ok(v) => Ok(
            (
                TunnelPlan {
                    debug: v.bool("debug"),
                    relay: resolve_relay(v.string("relay").as_str()),
                    allow_all: v.bool("a"),
                    local_tunnels: v.slice("L"),
                    remote_tunnels: v.slice("R"),
                    allow_listen: v.slice("aL"),
                    allow_forward: v.slice("aF"),
                    code: String::new(),
                    hint: None,
                },
                v.string("code"),
            ),
        ),
    }
}

/// Checks the tunnels of `p` and gives it its code and its hint.
pub fn check_tunnel_plan(
    p: TunnelPlan,
    flag_code: &str,
    env_code: Option<&str>,
    fresh: Result<String, String>,
) -> (r: Result<TunnelPlan, Refusal>)
    requires
        p.local_tunnels@.len() + p.remote_tunnels@.len() <= usize::MAX,
    ensures
        match p.fault() {
            Some(m) => r is Err && r->Err_0.says(m),
            None => match spec_code_or_fresh(flag_code@, opt_view(env_code), result_view(fresh)) {
                Err(m) => r is Err && r->Err_0.says(m),
                Ok(c) => {
                    &&& r is Ok
                    &&& r->Ok_0.debug == p.debug
                    &&& r->Ok_0.relay == p.relay
                    &&& r->Ok_0.allow_all == p.allow_all
                    &&& r->Ok_0.local_tunnels == p.local_tunnels
                    &&& r->Ok_0.remote_tunnels == p.remote_tunnels
                    &&& r->Ok_0.allow_listen == p.allow_listen
                    &&& r->Ok_0.allow_forward == p.allow_forward
                    &&& r->Ok_0.code@ == c.0
                    &&& text_view(r->Ok_0.hint) == spec_tunnel_hint(
                        c,
                        views_of(p.local_tunnels@),
                        views_of(p.remote_tunnels@),
                    )
                },
            },
        },
{
    match validate_tunnel_config(
        p.local_tunnels.as_slice(),
        p.remote_tunnels.as_slice(),
        p.allow_listen.as_slice(),
        p.allow_forward.as_slice(),
        p.allow_all,
    ) {
        Err(m) => {
            return Err(Refusal::Message(m));
        },
        Ok(()) => {},
    }
    let c = match resolve_or_generate_code_from(flag_code, env_code, fresh) {
        Err(m) => {
            return Err(Refusal::Message(m));
        },
        Ok(c) => c,
    };
    proof {
        crate::command::law_hint_permits_requests(
            c.0@,
            views_of(p.local_tunnels@),
            views_of(p.remote_tunnels@),
        );
    }
    let mut hint: Option<String> = None;
    if c.1 {
        match tunnel_peer_command(
            c.0.as_str(),
            p.local_tunnels.as_slice(),
            p.remote_tunnels.as_slice(),
        ) {
            Ok(cmd) => {
                hint = if cmd.as_str().is_empty() {
                    simple_hint(c.0.as_str(), true, " qvole tunnel")
                } else {
                    Some(peer_hint_block(cmd.as_str()))
                };
            },
            Err(_) => {},
        }
    }
    let mut p = p;
    p.code = c.0;
    p.hint = hint;
    Ok(p)
}

/// The status of the program, and the error to log before.
#[derive(Debug)]
pub struct Exit {
    pub code: i32,
    pub error: Option<String>,
}

/// The end of a pipe: being told to stop is no failure.
pub fn pipe_exit(result: &Result<(), PipeError>) -> (e: Exit)
    ensures
        match result {
            Ok(()) => e.code == 0 && e.error is None,
            Err(PipeError::Canceled) => e.code == 0 && e.error is None,
            Err(x) => e.code == 1 && text_view(e.error) == Some(x.spec_message()),
        },
{
    match result {
        Ok(()) => Exit { code: 0, error: None },
        Err(PipeError::Canceled) => Exit { code: 0, error: None },
        Err(x) => Exit { code: 1, error: Some(x.message()) },
    }
}

/// The end of a tunnel.
pub fn tunnel_exit(result: &Result<(), TunnelError>) -> (e: Exit)
    ensures
        match result {
            Ok(()) => e.code == 0 && e.error is None,
            Err(TunnelError::Canceled) => e.code == 0 && e.error is None,
            Err(x) => e.code == 1 && text_view(e.error) == Some(x.spec_message()),
        },
{
    match result {
        Ok(()) => Exit { code: 0, error: None },
        Err(TunnelError::Canceled) => Exit { code: 0, error: None },
        Err(x) => Exit { code: 1, error: Some(x.message()) },
    }
}

/// The end of `exec`: the status of the command is passed on; a command that
/// was killed counts as interrupted if this side was, else as ended by the
/// peer.
pub fn exec_exit(result: &Result<(), ExecError>, interrupted: bool) -> (e: Exit)
    ensures
        match result {
            Ok(()) => e.code == 0 && e.error is None,
            Err(ExecError::Canceled) => e.code == 0 && e.error is None,
            Err(ExecError::Killed) => e.error is None && e.code == if interrupted {
                EXIT_CODE_INTERRUPT
            } else {
                0
            },
            Err(x) => if x is Exit && x->Exit_0 >= 0 {
                e.code == x->Exit_0 && e.error is None
            } else {
                e.code == 1 && text_view(e.error) == Some(x.spec_message())
            },
        },
{
    match result {
        Ok(()) => Exit { code: 0, error: None },
        Err(x) => match x {
            ExecError::Canceled => Exit { code: 0, error: None },
            ExecError::Killed => if interrupted {
                Exit { code: EXIT_CODE_INTERRUPT, error: None }
            } else {
                Exit { code: 0, error: None }
            },
            ExecError::Exit(code) => if *code >= 0 {
                Exit { code: *code, error: None }
            } else {
                Exit { code: 1, error: Some(x.message()) }
            },
            _ => Exit { code: 1, error: Some(x.message()) },
        },
    }
}

} // verus!
