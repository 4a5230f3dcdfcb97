//! Options of a connection for programs that use the library.
use vstd::prelude::*;

use crate::clock::Duration;
use crate::exchange::PeerConfig;
use crate::room::views_of;

verus! {

/// Length of the shortest code, in bytes.
pub const MIN_CODE_LEN: usize = 8;

/// Length of the longest code, in bytes.
pub const MAX_CODE_LEN: usize = 256;

/// All options. A span or a number that is zero is not set.
#[derive(Debug)]
pub struct Options {
    pub code: String,
    pub relay: String,
    pub punch_timeout: Duration,
    pub exchange_deadline: Duration,
    pub keep_alive_period: Duration,
    pub idle_timeout: Duration,
    pub handshake_timeout: Duration,
    pub max_streams: i64,
    pub forward_max_streams: i64,
    /// Inactivity after which a tunnelled connection is closed; zero for never.
    pub stream_idle_timeout: Duration,
    pub command: String,
    /// Run the command here, or bridge standard input and output.
    pub cmd_mode: bool,
    pub local_tunnels: Vec<String>,
    pub remote_tunnels: Vec<String>,
    pub allow_all: bool,
    pub allow_listen: Vec<String>,
    pub allow_forward: Vec<String>,
}

/// [`Options`] by their contents.
#[verifier::ext_equal]
pub struct OptionsView {
    pub code: Seq<char>,
    pub relay: Seq<char>,
    pub punch_timeout: Duration,
    pub exchange_deadline: Duration,
    pub keep_alive_period: Duration,
    pub idle_timeout: Duration,
    pub handshake_timeout: Duration,
    pub max_streams: i64,
    pub forward_max_streams: i64,
    pub stream_idle_timeout: Duration,
    pub command: Seq<char>,
    pub cmd_mode: bool,
    pub local_tunnels: Seq<Seq<char>>,
    pub remote_tunnels: Seq<Seq<char>>,
    pub allow_all: bool,
    pub allow_listen: Seq<Seq<char>>,
    pub allow_forward: Seq<Seq<char>>,
}

impl View for Options {
    type V = OptionsView;

    open spec fn view(&self) -> OptionsView {
        OptionsView {
            code: self.code@,
            relay: self.relay@,
            punch_timeout: self.punch_timeout,
            exchange_deadline: self.exchange_deadline,
            keep_alive_period: self.keep_alive_period,
            idle_timeout: self.idle_timeout,
            handshake_timeout: self.handshake_timeout,
            max_streams: self.max_streams,
            forward_max_streams: self.forward_max_streams,
            stream_idle_timeout: self.stream_idle_timeout,
            command: self.command@,
            cmd_mode: self.cmd_mode,
            local_tunnels: views_of(self.local_tunnels@),
            remote_tunnels: views_of(self.remote_tunnels@),
            allow_all: self.allow_all,
            allow_listen: views_of(self.allow_listen@),
            allow_forward: views_of(self.allow_forward@),
        }
    }
}

/// Nothing set.
pub open spec fn no_options() -> OptionsView {
    OptionsView {
        code: Seq::empty(),
        relay: Seq::empty(),
        punch_timeout: Duration { nanos: 0 },
        exchange_deadline: Duration { nanos: 0 },
        keep_alive_period: Duration { nanos: 0 },
        idle_timeout: Duration { nanos: 0 },
        handshake_timeout: Duration { nanos: 0 },
        max_streams: 0,
        forward_max_streams: 0,
        stream_idle_timeout: Duration { nanos: 0 },
        command: Seq::empty(),
        cmd_mode: false,
        local_tunnels: Seq::empty(),
        remote_tunnels: Seq::empty(),
        allow_all: false,
        allow_listen: Seq::empty(),
        allow_forward: Seq::empty(),
    }
}

impl Default for Options {
    fn default() -> (o: Options)
        ensures
            o@ == no_options(),
    {
        let o = Options {
            code: String::new(),
            relay: String::new(),
            punch_timeout: Duration::zero(),
            exchange_deadline: Duration::zero(),
            keep_alive_period: Duration::zero(),
            idle_timeout: Duration::zero(),
            handshake_timeout: Duration::zero(),
            max_streams: 0,
            forward_max_streams: 0,
            stream_idle_timeout: Duration::zero(),
            command: String::new(),
            cmd_mode: false,
            local_tunnels: Vec::new(),
            remote_tunnels: Vec::new(),
            allow_all: false,
            allow_listen: Vec::new(),
            allow_forward: Vec::new(),
        };
        assert(o@ =~= no_options());
        o
    }
}

/// The setting of one option.
#[derive(Debug)]
pub enum Choice {
    Code(String),
    Relay(String),
    PunchTimeout(Duration),
    ExchangeDeadline(Duration),
    KeepAlive(Duration),
    IdleTimeout(Duration),
    HandshakeTimeout(Duration),
    MaxStreams(i64),
    ForwardMaxStreams(i64),
    StreamIdleTimeout(Duration),
    Command(String),
    CmdMode(bool),
    LocalTunnel(String),
    RemoteTunnel(String),
    AllowAll(bool),
    AllowListen(String),
    AllowForward(String),
}

impl Choice {
    /// The options with this one set. The lists of tunnels and of what is
    /// allowed grow; of every other option the last setting counts.
    pub open spec fn applied(self, o: OptionsView) -> OptionsView {
        match self {
            Choice::Code(s) => OptionsView { code: s@, ..o },
            Choice::Relay(s) => OptionsView { relay: s@, ..o },
            Choice::PunchTimeout(d) => OptionsView { punch_timeout: d, ..o },
            Choice::ExchangeDeadline(d) => OptionsView { exchange_deadline: d, ..o },
            Choice::KeepAlive(d) => OptionsView { keep_alive_period: d, ..o },
            Choice::IdleTimeout(d) => OptionsView { idle_timeout: d, ..o },
            Choice::HandshakeTimeout(d) => OptionsView { handshake_timeout: d, ..o },
            Choice::MaxStreams(n) => OptionsView { max_streams: n, ..o },
            Choice::ForwardMaxStreams(n) => OptionsView { forward_max_streams: n, ..o },
            Choice::StreamIdleTimeout(d) => OptionsView { stream_idle_timeout: d, ..o },
            Choice::Command(s) => OptionsView { command: s@, ..o },
            Choice::CmdMode(b) => OptionsView { cmd_mode: b, ..o },
            Choice::LocalTunnel(s) => OptionsView { local_tunnels: o.local_tunnels.push(s@), ..o },
            Choice::RemoteTunnel(s) => OptionsView {
                remote_tunnels: o.remote_tunnels.push(s@),
                ..o
            },
            Choice::AllowAll(b) => OptionsView { allow_all: b, ..o },
            Choice::AllowListen(s) => OptionsView { allow_listen: o.allow_listen.push(s@), ..o },
            Choice::AllowForward(s) => OptionsView { allow_forward: o.allow_forward.push(s@), ..o },
        }
    }
}

fn push_copy(v: &mut Vec<String>, s: &String)
    ensures
        views_of(final(v)@) == views_of(old(v)@).push(s@),
{
    v.push(s.clone());
    assert(views_of(v@) =~= views_of(old(v)@).push(s@));
}

impl Options {
    /// Sets one option.
    pub fn apply(&mut self, c: &Choice)
        ensures
            final(self)@ == c.applied(old(self)@),
    {
        match c {
            Choice::Code(s) => self.code = s.clone(),
            Choice::Relay(s) => self.relay = s.clone(),
            Choice::PunchTimeout(d) => self.punch_timeout = *d,
            Choice::ExchangeDeadline(d) => self.exchange_deadline = *d,
            Choice::KeepAlive(d) => self.keep_alive_period = *d,
            Choice::IdleTimeout(d) => self.idle_timeout = *d,
            Choice::HandshakeTimeout(d) => self.handshake_timeout = *d,
            Choice::MaxStreams(n) => self.max_streams = *n,
            Choice::ForwardMaxStreams(n) => self.forward_max_streams = *n,
            Choice::StreamIdleTimeout(d) => self.stream_idle_timeout = *d,
            Choice::Command(s) => self.command = s.clone(),
            Choice::CmdMode(b) => self.cmd_mode = *b,
            Choice::LocalTunnel(s) => push_copy(&mut self.local_tunnels, s),
            Choice::RemoteTunnel(s) => push_copy(&mut self.remote_tunnels, s),
            Choice::AllowAll(b) => self.allow_all = *b,
            Choice::AllowListen(s) => push_copy(&mut self.allow_listen, s),
            Choice::AllowForward(s) => push_copy(&mut self.allow_forward, s),
        }
    }
}

/// The options after some settings, in order.
pub open spec fn spec_resolve(opts: Seq<Choice>) -> OptionsView
    decreases opts.len(),
{
    if opts.len() == 0 {
        no_options()
    } else {
        opts.last().applied(spec_resolve(opts.drop_last()))
    }
}

/// The options that the settings `opts` give.
pub fn resolve_options(opts: &[Choice]) -> (o: Options)
    ensures
        o@ == spec_resolve(opts@),
{
    let mut o = Options::default();
    let mut i: usize = 0;
    assert(opts@.take(0) =~= Seq::empty());
    while i < opts.len()
        invariant
            i <= opts@.len(),
            o@ == spec_resolve(opts@.take(i as int)),
        decreases opts@.len() - i,
    {
        o.apply(&opts[i]);
        assert(opts@.take(i + 1).drop_last() =~= opts@.take(i as int));
        i = i + 1;
    }
    assert(opts@.take(i as int) =~= opts@);
    o
}

pub fn with_code(code: &str) -> (c: Choice)
    ensures
        c is Code,
        c->Code_0@ == code@,
{
    Choice::Code(code.to_owned())
}

pub fn with_relay(addr: &str) -> (c: Choice)
    ensures
        c is Relay,
        c->Relay_0@ == addr@,
{
    Choice::Relay(addr.to_owned())
}

pub fn with_punch_timeout(d: Duration) -> (c: Choice)
    ensures
        c == Choice::PunchTimeout(d),
{
    Choice::PunchTimeout(d)
}

pub fn with_exchange_deadline(d: Duration) -> (c: Choice)
    ensures
        c == Choice::ExchangeDeadline(d),
{
    Choice::ExchangeDeadline(d)
}

pub fn with_keep_alive(d: Duration) -> (c: Choice)
    ensures
        c == Choice::KeepAlive(d),
{
    Choice::KeepAlive(d)
}

pub fn with_idle_timeout(d: Duration) -> (c: Choice)
    ensures
        c == Choice::IdleTimeout(d),
{
    Choice::IdleTimeout(d)
}

pub fn with_handshake_timeout(d: Duration) -> (c: Choice)
    ensures
        c == Choice::HandshakeTimeout(d),
{
    Choice::HandshakeTimeout(d)
}

pub fn with_max_streams(n: i64) -> (c: Choice)
    ensures
        c == Choice::MaxStreams(n),
{
    Choice::MaxStreams(n)
}

pub fn with_forward_max_streams(n: i64) -> (c: Choice)
    ensures
        c == Choice::ForwardMaxStreams(n),
{
    Choice::ForwardMaxStreams(n)
}

pub fn with_stream_idle_timeout(d: Duration) -> (c: Choice)
    ensures
        c == Choice::StreamIdleTimeout(d),
{
    Choice::StreamIdleTimeout(d)
}

pub fn with_command(cmd: &str) -> (c: Choice)
    ensures
        c is Command,
        c->Command_0@ == cmd@,
{
    Choice::Command(cmd.to_owned())
}

pub fn with_cmd_mode(b: bool) -> (c: Choice)
    ensures
        c == Choice::CmdMode(b),
{
    Choice::CmdMode(b)
}

pub fn with_local_tunnel(request: &str) -> (c: Choice)
    ensures
        c is LocalTunnel,
        c->LocalTunnel_0@ == request@,
{
    Choice::LocalTunnel(request.to_owned())
}

pub fn with_remote_tunnel(request: &str) -> (c: Choice)
    ensures
        c is RemoteTunnel,
        c->RemoteTunnel_0@ == request@,
{
    Choice::RemoteTunnel(request.to_owned())
}

pub fn with_allow_all(b: bool) -> (c: Choice)
    ensures
        c == Choice::AllowAll(b),
{
    Choice::AllowAll(b)
}

pub fn with_allow_listen(addr: &str) -> (c: Choice)
    ensures
        c is AllowListen,
        c->AllowListen_0@ == addr@,
{
    Choice::AllowListen(addr.to_owned())
}

pub fn with_allow_forward(addr: &str) -> (c: Choice)
    ensures
        c is AllowForward,
        c->AllowForward_0@ == addr@,
{
    Choice::AllowForward(addr.to_owned())
}

/// Why a call of the library failed.
#[derive(Debug)]
pub enum LibError {
    /// The options are not good.
    Validation(String),
    Connect(String),
    Stream(String),
    Exec(String),
    Tunnel(String),
}

impl LibError {
    /// The text of an error.
    pub open spec fn spec_message(&self) -> Seq<char> {
        match self {
            LibError::Validation(m) => m@,
            LibError::Connect(m) => m@,
            LibError::Stream(m) => m@,
            LibError::Exec(m) => m@,
            LibError::Tunnel(m) => m@,
        }
    }

    pub fn message(&self) -> (s: String)
        ensures
            s@ == self.spec_message(),
    {
        match self {
            LibError::Validation(m) => m.clone(),
            LibError::Connect(m) => m.clone(),
            LibError::Stream(m) => m.clone(),
            LibError::Exec(m) => m.clone(),
            LibError::Tunnel(m) => m.clone(),
        }
    }
}

/// Number of bytes of a text.
pub open spec fn byte_len(s: Seq<char>) -> nat {
    vstd::utf8::encode_utf8(s).len()
}

/// What is wrong with options; code and relay must be given.
pub open spec fn spec_fault(o: OptionsView) -> Option<Seq<char>> {
    if o.code.len() == 0 {
        Some("code is required"@)
    } else if byte_len(o.code) < MIN_CODE_LEN {
        Some("code must be at least 8 characters"@)
    } else if byte_len(o.code) > MAX_CODE_LEN {
        Some("code must be at most 256 characters"@)
    } else if o.relay.len() == 0 {
        Some("relay is required"@)
    } else {
        None
    }
}

/// Fails on options with which no connection can be made.
pub fn validate(o: &Options) -> (r: Result<(), LibError>)
    ensures
        match spec_fault(o@) {
            None => r is Ok,
            Some(m) => r is Err && r->Err_0 is Validation && r->Err_0->Validation_0@ == m,
        },
{
    if o.code.as_str().is_empty() {
        return Err(LibError::Validation("code is required".to_owned()));
    }
    let n: usize = o.code.as_str().as_bytes().len();
    if n < MIN_CODE_LEN {
        return Err(LibError::Validation("code must be at least 8 characters".to_owned()));
    }
    if n > MAX_CODE_LEN {
        return Err(LibError::Validation("code must be at most 256 characters".to_owned()));
    }
    if o.relay.as_str().is_empty() {
        return Err(LibError::Validation("relay is required".to_owned()));
    }
    Ok(())
}

/// A span that is set.
pub open spec fn set_span(d: Duration) -> Option<Duration> {
    if d.nanos == 0 {
        None
    } else {
        Some(d)
    }
}

/// A number that is set, in 32 bits.
pub open spec fn set_number(n: i64) -> Option<u32> {
    if n > 0 {
        Some(n as u32)
    } else {
        None
    }
}

fn span(d: Duration) -> (r: Option<Duration>)
    ensures
        r == set_span(d),
{
    if d.nanos == 0 {
        None
    } else {
        Some(d)
    }
}

fn number(n: i64) -> (r: Option<u32>)
    ensures
        r == set_number(n),
{
    if n > 0 {
        Some(
            #[verifier::truncate]
            (n as u32),
        )
    } else {
        None
    }
}

/// The configuration of a connection that the options ask for; what they leave
/// open stays open.
pub fn to_peer_config(o: &Options) -> (c: PeerConfig)
    ensures
        c == (PeerConfig {
            punch_timeout: set_span(o@.punch_timeout),
            exchange_deadline: set_span(o@.exchange_deadline),
            spake2_resend: None,
            confirm_resend: None,
            read_deadline: None,
            reg_interval: None,
            max_streams: set_number(o@.max_streams),
            forward_max_streams: set_number(o@.forward_max_streams),
            keep_alive_period: set_span(o@.keep_alive_period),
            idle_timeout: set_span(o@.idle_timeout),
            handshake_timeout: set_span(o@.handshake_timeout),
        }),
{
    PeerConfig {
        punch_timeout: span(o.punch_timeout),
        exchange_deadline: span(o.exchange_deadline),
        spake2_resend: None,
        confirm_resend: None,
        read_deadline: None,
        reg_interval: None,
        max_streams: number(o.max_streams),
        forward_max_streams: number(o.forward_max_streams),
        keep_alive_period: span(o.keep_alive_period),
        idle_timeout: span(o.idle_timeout),
        handshake_timeout: span(o.handshake_timeout),
    }
}

/// Both set the same option, and not one that is a list.
pub open spec fn same_option(c: Choice, d: Choice) -> bool {
    match c {
        Choice::Code(_) => d is Code,
        Choice::Relay(_) => d is Relay,
        Choice::PunchTimeout(_) => d is PunchTimeout,
        Choice::ExchangeDeadline(_) => d is ExchangeDeadline,
        Choice::KeepAlive(_) => d is KeepAlive,
        Choice::IdleTimeout(_) => d is IdleTimeout,
        Choice::HandshakeTimeout(_) => d is HandshakeTimeout,
        Choice::MaxStreams(_) => d is MaxStreams,
        Choice::ForwardMaxStreams(_) => d is ForwardMaxStreams,
        Choice::StreamIdleTimeout(_) => d is StreamIdleTimeout,
        Choice::Command(_) => d is Command,
        Choice::CmdMode(_) => d is CmdMode,
        Choice::AllowAll(_) => d is AllowAll,
        Choice::LocalTunnel(_)
        | Choice::RemoteTunnel(_)
        | Choice::AllowListen(_)
        | Choice::AllowForward(_) => false,
    }
}

/// Setting an option again makes an earlier setting of it count for nothing.
pub proof fn law_last_setting_counts(opts: Seq<Choice>, c: Choice, d: Choice)
    requires
        same_option(c, d),
    ensures
        spec_resolve(opts.push(c).push(d)) == spec_resolve(opts.push(d)),
{
    assert(opts.push(c).push(d).drop_last() =~= opts.push(c));
    assert(opts.push(c).drop_last() =~= opts);
    assert(opts.push(d).drop_last() =~= opts);
    assert(spec_resolve(opts.push(c)) == c.applied(spec_resolve(opts)));
    assert(spec_resolve(opts.push(c).push(d)) == d.applied(spec_resolve(opts.push(c))));
    assert(spec_resolve(opts.push(d)) == d.applied(spec_resolve(opts)));
}

} // verus!
