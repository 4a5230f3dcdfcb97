//! What a side of a tunnel session does: which requests it listens for, which
//! streams it serves, and what it tells its user.
use vstd::prelude::*;

use crate::clock::Duration;
use crate::env::env_duration_ms_from;
use crate::net::{IpAddr, SocketAddr};
use crate::text::{chars_of, join2, quoted};
use crate::tunnel_allow::TunnelAllow;
use crate::tunnel_request::{parse_tunnel_request, RequestView, TunnelRequest};

verus! {

/// How a tunnel session failed.
#[derive(Debug)]
pub enum TunnelError {
    /// The peers could not connect.
    Connect(String),
    Canceled,
    Other(String),
}

impl TunnelError {
    /// The text of an error.
    pub open spec fn spec_message(&self) -> Seq<char> {
        match self {
            TunnelError::Connect(m) => m@,
            TunnelError::Canceled => "canceled"@,
            TunnelError::Other(m) => m@,
        }
    }

    pub fn message(&self) -> (s: String)
        ensures
            s@ == self.spec_message(),
    {
        match self {
            TunnelError::Connect(m) => m.clone(),
            TunnelError::Canceled => "canceled".to_owned(),
            TunnelError::Other(m) => m.clone(),
        }
    }

    pub fn is_canceled(&self) -> (b: bool)
        ensures
            b == (*self is Canceled),
    {
        match self {
            TunnelError::Canceled => true,
            _ => false,
        }
    }
}

/// The inactivity after which a tunnelled connection is closed, zero for
/// never: `override_val` if it is not zero, else the milliseconds of a setting.
pub fn stream_idle_timeout_from(override_val: Duration, env_val: Option<&str>) -> (d: Duration)
    ensures
        d == (if override_val.nanos > 0 {
            override_val
        } else {
            crate::clock::spec_from_millis(
                crate::env::spec_env_duration_ms(crate::env::view_opt(env_val), 0) as nat,
            )
        }),
{
    if override_val.nanos > 0 {
        override_val
    } else {
        Duration::from_millis(env_duration_ms_from(env_val, 0))
    }
}

/// The size of a new guard over outgoing streams, if the one in use has not
/// that size already.
pub fn init_outbound_guard(current: Option<usize>, n: i64) -> (r: Option<usize>)
    ensures
        ({
            let size = if n > 0 {
                n as usize
            } else {
                0
            };
            r == (if current == Some(size) {
                None
            } else {
                Some(size)
            })
        }),
{
    let size: usize = if n > 0 {
        n as usize
    } else {
        0
    };
    match current {
        Some(c) => if c == size {
            None
        } else {
            Some(size)
        },
        None => Some(size),
    }
}

/// The tunnels that a connection was announced for.
pub struct Announced {
    pub seen: Vec<usize>,
}

impl Announced {
    pub fn new() -> (a: Self)
        ensures
            a.seen@ == Seq::<usize>::empty(),
    {
        Announced { seen: Vec::new() }
    }

    /// Whether this is the first connection through tunnel `idx`.
    pub fn announce_tunnel_once(&mut self, idx: usize) -> (first: bool)
        ensures
            first == !old(self).seen@.contains(idx),
            final(self).seen@ == (if first {
                old(self).seen@.push(idx)
            } else {
                old(self).seen@
            }),
    {
        let mut i: usize = 0;
        while i < self.seen.len()
            invariant
                i <= self.seen@.len(),
                self.seen@ == old(self).seen@,
                forall|j: int| 0 <= j < i ==> self.seen@[j] != idx,
            decreases self.seen@.len() - i,
        {
            if self.seen[i] == idx {
                assert(self.seen@[i as int] == idx);
                return false;
            }
            i = i + 1;
        }
        self.seen.push(idx);
        true
    }
}

/// A tunnel is announced once: a second connection through it is not the
/// first.
pub proof fn law_announced_once(seen: Seq<usize>, idx: usize)
    ensures
        seen.push(idx).contains(idx),
{
    assert(seen.push(idx)[seen.len() as int] == idx);
}

/// The requests that the first `k` of some specifications ask for, or what is
/// wrong with the first that asks for none.
pub open spec fn requests_of(specs: Seq<String>, typ: Seq<char>, k: int) -> Result<
    Seq<RequestView>,
    Seq<char>,
>
    decreases k,
{
    if k <= 0 {
        Ok(Seq::empty())
    } else {
        match requests_of(specs, typ, k - 1) {
            Err(m) => Err(m),
            Ok(qs) => match crate::tunnel_request::spec_parse_request(specs[k - 1]@, typ) {
                Some(q) => Ok(qs.push(q)),
                None => Err(
                    "invalid -"@ + typ + " spec "@ + crate::text::quoted_text(specs[k - 1]@) + ": "@
                        + crate::tunnel_request::spec_format_error(),
                ),
            },
        }
    }
}

/// A side's own requests: those it listens for, then those its peer does.
pub open spec fn own_requests(local: Seq<String>, remote: Seq<String>) -> Result<
    Seq<RequestView>,
    Seq<char>,
> {
    match requests_of(local, "L"@, local.len() as int) {
        Err(m) => Err(m),
        Ok(a) => match requests_of(remote, "R"@, remote.len() as int) {
            Err(m) => Err(m),
            Ok(b) => Ok(a + b),
        },
    }
}

proof fn lemma_requests_fail(specs: Seq<String>, typ: Seq<char>, k: int, n: int)
    requires
        0 <= k <= n,
        requests_of(specs, typ, k) is Err,
    ensures
        requests_of(specs, typ, n) == requests_of(specs, typ, k),
    decreases n,
{
    if k < n {
        lemma_requests_fail(specs, typ, k, n - 1);
    }
}

fn collect_type(specs: &Vec<String>, typ: &str, out: &mut Vec<TunnelRequest>) -> (r: Result<
    (),
    String,
>)
    ensures
        match requests_of(specs@, typ@, specs@.len() as int) {
            Ok(qs) => r is Ok && crate::tunnel_request::request_views(final(out)@)
                == crate::tunnel_request::request_views(old(out)@) + qs,
            Err(m) => r is Err && r->Err_0@ == m,
        },
{
    let ghost before = crate::tunnel_request::request_views(out@);
    let mut i: usize = 0;
    assert(before + Seq::<RequestView>::empty() =~= before);
    while i < specs.len()
        invariant
            i <= specs@.len(),
            requests_of(specs@, typ@, i as int) is Ok,
            crate::tunnel_request::request_views(out@) == before + requests_of(
                specs@,
                typ@,
                i as int,
            )->Ok_0,
        decreases specs@.len() - i,
    {
        match parse_tunnel_request(specs[i].as_str(), typ) {
            Ok(q) => {
                let ghost o0 = out@;
                out.push(q);
                proof {
                    assert(crate::tunnel_request::request_views(out@)
                        =~= crate::tunnel_request::request_views(o0).push(q@));
                    assert(crate::tunnel_request::request_views(out@) =~= before + requests_of(
                        specs@,
                        typ@,
                        i + 1,
                    )->Ok_0);
                }
            },
            Err(e) => {
                let mut m = join2("invalid -", typ);
                m.push_str(" spec ");
                m.push_str(quoted(specs[i].as_str()).as_str());
                m.push_str(": ");
                m.push_str(e.as_str());
                proof {
                    assert(requests_of(specs@, typ@, i + 1) is Err);
                    lemma_requests_fail(specs@, typ@, i + 1, specs@.len() as int);
                }
                return Err(m);
            },
        }
        i = i + 1;
    }
    Ok(())
}

/// Reads a side's own requests.
pub fn collect_requests(local: &Vec<String>, remote: &Vec<String>) -> (r: Result<
    Vec<TunnelRequest>,
    String,
>)
    ensures
        match own_requests(local@, remote@) {
            Ok(qs) => r is Ok && crate::tunnel_request::request_views(r->Ok_0@) == qs,
            Err(m) => r is Err && r->Err_0@ == m,
        },
{
    let mut out: Vec<TunnelRequest> = Vec::new();
    assert(crate::tunnel_request::request_views(out@) =~= Seq::empty());
    if let Err(m) = collect_type(local, "L", &mut out) {
        return Err(m);
    }
    if let Err(m) = collect_type(remote, "R", &mut out) {
        return Err(m);
    }
    proof {
        let a = requests_of(local@, "L"@, local@.len() as int)->Ok_0;
        let b = requests_of(remote@, "R"@, remote@.len() as int)->Ok_0;
        assert(crate::tunnel_request::request_views(out@) =~= a + b);
    }
    Ok(out)
}

fn is_type(q: &TunnelRequest, c: char) -> (b: bool)
    ensures
        b == (q.typ@ == seq![c]),
{
    let v = chars_of(q.typ.as_str());
    let b = v.len() == 1 && v[0] == c;
    proof {
        if b {
            assert(v@ =~= seq![c]);
        }
    }
    b
}

/// The side that asks listens.
pub open spec fn is_local(q: RequestView) -> bool {
    q.typ == seq!['L']
}

/// The peer of the side that asks listens.
pub open spec fn is_remote(q: RequestView) -> bool {
    q.typ == seq!['R']
}

/// What the user is told of a request once both sides know it.
#[derive(Clone, Copy, Debug, PartialEq, Eq, Structural)]
pub enum Notice {
    Nothing,
    /// The peer takes no requests; it would have to allow the target.
    PeerRejectedLocal,
    /// The peer takes no requests; it would have to allow the listening
    /// address.
    PeerRejectedRemote,
    /// This side takes no requests.
    IgnoringPeer,
    /// Connections will be made to the target.
    Forwarding,
}

/// The notice for a request.
pub open spec fn spec_notice(
    q: RequestView,
    mine: bool,
    peer_accept: bool,
    accepts: bool,
    allowed: bool,
) -> Notice {
    if mine && !peer_accept && is_local(q) {
        Notice::PeerRejectedLocal
    } else if mine && !peer_accept && is_remote(q) {
        Notice::PeerRejectedRemote
    } else if !mine && !accepts {
        Notice::IgnoringPeer
    } else if mine && peer_accept && is_remote(q) {
        Notice::Forwarding
    } else if !mine && is_local(q) && allowed {
        Notice::Forwarding
    } else {
        Notice::Nothing
    }
}

/// What to tell the user of a request.
pub fn request_notice(q: &TunnelRequest, mine: bool, peer_accept: bool, allow: &TunnelAllow) -> (n:
    Notice)
    ensures
        n == spec_notice(
            q@,
            mine,
            peer_accept,
            allow.all || allow.listen@.len() > 0 || allow.forward@.len() > 0,
            allow.all || crate::tunnel_allow::spec_allow_match(allow.forward@, q@.target),
        ),
{
    if mine && !peer_accept && is_type(q, 'L') {
        Notice::PeerRejectedLocal
    } else if mine && !peer_accept && is_type(q, 'R') {
        Notice::PeerRejectedRemote
    } else if !mine && !allow.accepts() {
        Notice::IgnoringPeer
    } else if mine && peer_accept && is_type(q, 'R') {
        Notice::Forwarding
    } else if !mine && is_type(q, 'L') && allow.allows_forward(q.target_addr.as_str()) {
        Notice::Forwarding
    } else {
        Notice::Nothing
    }
}

/// Whether a side listens for a request.
#[derive(Clone, Copy, Debug, PartialEq, Eq, Structural)]
pub enum ListenDecision {
    /// The other side does, or the peer takes no requests.
    Skip,
    /// The peer asks for an address that it may not have.
    Refuse,
    Listen,
}

/// Whether a side listens for a request: for its own unless the peer is to
/// listen or takes no requests, for the peer's unless the peer itself listens,
/// and only on an address that is allowed.
pub open spec fn spec_listen(q: RequestView, mine: bool, peer_accept: bool, allowed: bool)
    -> ListenDecision {
    if mine {
        if is_remote(q) || !peer_accept {
            ListenDecision::Skip
        } else {
            ListenDecision::Listen
        }
    } else if is_local(q) {
        ListenDecision::Skip
    } else if !allowed {
        ListenDecision::Refuse
    } else {
        ListenDecision::Listen
    }
}

pub fn listen_decision(q: &TunnelRequest, mine: bool, peer_accept: bool, allow: &TunnelAllow) -> (d:
    ListenDecision)
    ensures
        d == spec_listen(
            q@,
            mine,
            peer_accept,
            allow.all || crate::tunnel_allow::spec_allow_match(allow.listen@, q@.listen),
        ),
{
    if mine {
        if is_type(q, 'R') || !peer_accept {
            ListenDecision::Skip
        } else {
            ListenDecision::Listen
        }
    } else if is_type(q, 'L') {
        ListenDecision::Skip
    } else if !allow.allows_listen(q.listen_addr.as_str()) {
        ListenDecision::Refuse
    } else {
        ListenDecision::Listen
    }
}

/// The header of a stream: the number of its request, high byte first.
pub open spec fn spec_header(idx: int) -> Seq<u8> {
    seq![(idx / 256) as u8, (idx % 256) as u8]
}

/// The header of a stream for request `spec_idx`; nothing if the number does
/// not fit.
pub fn stream_header(spec_idx: usize) -> (r: Option<Vec<u8>>)
    ensures
        match r {
            Some(h) => spec_idx <= u16::MAX && h@ == spec_header(spec_idx as int),
            None => spec_idx > u16::MAX,
        },
{
    if spec_idx > u16::MAX as usize {
        return None;
    }
    let mut h: Vec<u8> = Vec::new();
    h.push((spec_idx / 256) as u8);
    h.push((spec_idx % 256) as u8);
    assert(h@ =~= spec_header(spec_idx as int));
    Some(h)
}

/// The number in a header.
pub open spec fn header_index(hi: u8, lo: u8) -> int {
    hi * 256 + lo
}

/// A header that was written is read as the number that it was written for.
pub proof fn law_header_round_trip(idx: int)
    requires
        0 <= idx <= u16::MAX,
    ensures
        header_index(spec_header(idx)[0], spec_header(idx)[1]) == idx,
{
}

/// What to do with a stream that the peer opens.
#[derive(Clone, Copy, Debug, PartialEq, Eq, Structural)]
pub enum DialDecision {
    /// There is no request of that number.
    InvalidIndex(usize),
    /// The peer has no business opening a stream for it.
    Ignore,
    /// Connect to the target of one's own request.
    DialOwn(usize),
    /// Connect to the target of the peer's request, as far as it is allowed.
    DialPeer(usize),
}

/// What to do with a stream for request `idx`.
pub open spec fn spec_dial(reqs: Seq<RequestView>, idx: int, start: int, count: int)
    -> DialDecision {
    if idx >= reqs.len() {
        DialDecision::InvalidIndex(idx as usize)
    } else {
        let mine = crate::tunnel_config::is_mine(idx, start, count);
        if (is_local(reqs[idx]) && mine) || (is_remote(reqs[idx]) && !mine) {
            DialDecision::Ignore
        } else if mine {
            DialDecision::DialOwn(idx as usize)
        } else {
            DialDecision::DialPeer(idx as usize)
        }
    }
}

/// Whether request `i` is one's own.
pub fn is_own(i: usize, start: usize, count: usize) -> (b: bool)
    ensures
        b == crate::tunnel_config::is_mine(i as int, start as int, count as int),
{
    i >= start && i - start < count
}

pub fn dial_decision(
    reqs: &Vec<TunnelRequest>,
    header_hi: u8,
    header_lo: u8,
    my_req_start: usize,
    my_req_count: usize,
) -> (d: DialDecision)
    ensures
        d == spec_dial(
            crate::tunnel_request::request_views(reqs@),
            header_index(header_hi, header_lo),
            my_req_start as int,
            my_req_count as int,
        ),
{
    let idx: usize = header_hi as usize * 256 + header_lo as usize;
    if idx >= reqs.len() {
        return DialDecision::InvalidIndex(idx);
    }
    let mine = is_own(idx, my_req_start, my_req_count);
    assert(crate::tunnel_request::request_views(reqs@)[idx as int] == reqs@[idx as int]@);
    if (is_type(&reqs[idx], 'L') && mine) || (is_type(&reqs[idx], 'R') && !mine) {
        DialDecision::Ignore
    } else if mine {
        DialDecision::DialOwn(idx)
    } else {
        DialDecision::DialPeer(idx)
    }
}

/// What to do with a stream of which `header` was read before it ended or took
/// too long: a stream that ends inside its header selects nothing.
pub fn stream_decision(
    reqs: &Vec<TunnelRequest>,
    header: &[u8],
    my_req_start: usize,
    my_req_count: usize,
) -> (d: DialDecision)
    ensures
        d == (if header@.len() < 2 {
            DialDecision::Ignore
        } else {
            spec_dial(
                crate::tunnel_request::request_views(reqs@),
                header_index(header@[0], header@[1]),
                my_req_start as int,
                my_req_count as int,
            )
        }),
{
    if header.len() < 2 {
        return DialDecision::Ignore;
    }
    dial_decision(reqs, header[0], header[1], my_req_start, my_req_count)
}

/// Fails if neither side asked for a tunnel.
pub fn check_exchanged(reqs: &Vec<TunnelRequest>) -> (r: Result<(), TunnelError>)
    ensures
        match r {
            Ok(()) => reqs@.len() > 0,
            Err(e) => reqs@.len() == 0 && e is Other && e.spec_message()
                == "no tunnel requests exchanged"@,
        },
{
    if reqs.len() == 0 {
        Err(TunnelError::Other("no tunnel requests exchanged".to_owned()))
    } else {
        Ok(())
    }
}

/// For each request just one of the two sides may listen, and it is the other
/// that serves the streams for it.
pub proof fn law_one_listens_one_dials(
    client: Seq<RequestView>,
    server: Seq<RequestView>,
    i: int,
    client_accepts: bool,
    server_accepts: bool,
    client_allows: bool,
    server_allows: bool,
)
    requires
        0 <= i < client.len() + server.len(),
        ({
            let q = crate::tunnel_config::merged(client, server, false).0[i];
            is_local(q) || is_remote(q)
        }),
    ensures
        ({
            let (reqs, c0) = crate::tunnel_config::merged(client, server, false);
            let s0 = crate::tunnel_config::merged(server, client, true).1;
            let c_mine = crate::tunnel_config::is_mine(i, c0 as int, client.len() as int);
            let s_mine = crate::tunnel_config::is_mine(i, s0 as int, server.len() as int);
            let c_listens = spec_listen(reqs[i], c_mine, server_accepts, client_allows);
            let s_listens = spec_listen(reqs[i], s_mine, client_accepts, server_allows);
            let c_dials = spec_dial(reqs, i, c0 as int, client.len() as int);
            let s_dials = spec_dial(reqs, i, s0 as int, server.len() as int);
            &&& c_listens == ListenDecision::Skip || s_listens == ListenDecision::Skip
            &&& c_listens == ListenDecision::Listen ==> c_dials == DialDecision::Ignore && s_dials
                != DialDecision::Ignore
            &&& s_listens == ListenDecision::Listen ==> s_dials == DialDecision::Ignore && c_dials
                != DialDecision::Ignore
        }),
{
    let reqs = crate::tunnel_config::merged(client, server, false).0;
    let q = reqs[i];
    assert(is_local(q) ==> q.typ[0] == 'L');
    assert(is_remote(q) ==> q.typ[0] == 'R');
}

/// The port that a text is: digits with an optional plus sign, in range.
pub open spec fn spec_parse_u16(s: Seq<char>) -> Option<u16> {
    match crate::number::spec_parse_i64(s) {
        Some(v) => if 0 <= v <= 65535 && !(s.len() > 0 && s[0] == '-') {
            Some(v as u16)
        } else {
            None
        },
        None => None,
    }
}

/// Reads the port of a target.
pub fn parse_target_port(s: &str) -> (r: Result<u16, String>)
    ensures
        match spec_parse_u16(s@) {
            Some(p) => r is Ok && r->Ok_0 == p,
            None => r is Err && r->Err_0@ == "invalid port "@ + crate::text::quoted_text(s@),
        },
{
    let v = chars_of(s);
    let minus = v.len() > 0 && v[0] == '-';
    if let Some(n) = crate::number::parse_i64(s) {
        if 0 <= n && n <= 65535 && !minus {
            return Ok(n as u16);
        }
    }
    Err(join2("invalid port ", quoted(s).as_str()))
}

/// What to do next for a stream to one of the addresses of a target.
#[derive(Debug)]
pub enum DialStep {
    /// Connect to this address.
    Dial(SocketAddr),
    /// The last address was reached.
    Connected,
    /// No address could be reached.
    Failed(String),
}

/// A [`DialStep`] by its contents.
pub enum DialStepView {
    Dial(SocketAddr),
    Connected,
    Failed(Seq<char>),
}

impl View for DialStep {
    type V = DialStepView;

    open spec fn view(&self) -> DialStepView {
        match self {
            DialStep::Dial(a) => DialStepView::Dial(*a),
            DialStep::Connected => DialStepView::Connected,
            DialStep::Failed(m) => DialStepView::Failed(m@),
        }
    }
}

/// How an attempt to connect ended.
#[derive(Debug)]
pub enum Attempt {
    /// There was none yet.
    NotYet,
    Reached,
    Failed(String),
}

/// An [`Attempt`] by its contents.
pub enum AttemptView {
    NotYet,
    Reached,
    Failed(Seq<char>),
}

impl View for Attempt {
    type V = AttemptView;

    open spec fn view(&self) -> AttemptView {
        match self {
            Attempt::NotYet => AttemptView::NotYet,
            Attempt::Reached => AttemptView::Reached,
            Attempt::Failed(m) => AttemptView::Failed(m@),
        }
    }
}

/// The step after `tried` of the addresses were tried, the last one with the
/// outcome `last`: the addresses are tried in their order until one is reached.
pub open spec fn spec_dial_step(
    ips: Seq<IpAddr>,
    port: Seq<char>,
    tried: nat,
    last: AttemptView,
) -> DialStepView {
    match spec_parse_u16(port) {
        None => DialStepView::Failed("invalid port "@ + crate::text::quoted_text(port)),
        Some(p) => if last is Reached {
            DialStepView::Connected
        } else if tried < ips.len() {
            DialStepView::Dial(SocketAddr { ip: ips[tried as int], port: p, scope_id: 0 })
        } else {
            match last {
                AttemptView::Failed(m) => DialStepView::Failed(m),
                _ => DialStepView::Failed("<nil>"@),
            }
        },
    }
}

/// The next step on the way to one of the addresses of a target.
pub fn dial_step(ips: &Vec<IpAddr>, port: &str, tried: usize, last: Attempt) -> (s: DialStep)
    ensures
        s@ == spec_dial_step(ips@, port@, tried as nat, last@),
{
    let port: u16 = match parse_target_port(port) {
        Ok(p) => p,
        Err(m) => {
            return DialStep::Failed(m);
        },
    };
    match last {
        Attempt::Reached => DialStep::Connected,
        Attempt::NotYet => {
            if tried < ips.len() {
                DialStep::Dial(SocketAddr::new(ips[tried], port))
            } else {
                DialStep::Failed("<nil>".to_owned())
            }
        },
        Attempt::Failed(m) => {
            if tried < ips.len() {
                DialStep::Dial(SocketAddr::new(ips[tried], port))
            } else {
                DialStep::Failed(m)
            }
        },
    }
}

/// The addresses that are dialed from a step on, where attempt `i` ends with
/// `outcomes[i]`, and how it ends.
pub open spec fn dial_run(
    ips: Seq<IpAddr>,
    port: Seq<char>,
    outcomes: Seq<AttemptView>,
    tried: nat,
    last: AttemptView,
) -> (Seq<SocketAddr>, DialStepView)
    decreases ips.len() - tried,
{
    match spec_dial_step(ips, port, tried, last) {
        DialStepView::Dial(a) => if tried < ips.len() {
            let (rest, end) = dial_run(ips, port, outcomes, tried + 1, outcomes[tried as int]);
            (seq![a] + rest, end)
        } else {
            (Seq::empty(), DialStepView::Dial(a))
        },
        end => (Seq::empty(), end),
    }
}

/// Attempt `k` is the first that reaches its address.
pub open spec fn first_reached(outcomes: Seq<AttemptView>, k: int) -> bool {
    &&& 0 <= k < outcomes.len()
    &&& outcomes[k] is Reached
    &&& forall|i: int| 0 <= i < k ==> !(#[trigger] outcomes[i] is Reached)
}

proof fn lemma_dial_run(
    ips: Seq<IpAddr>,
    port: Seq<char>,
    outcomes: Seq<AttemptView>,
    tried: nat,
    last: AttemptView,
)
    requires
        spec_parse_u16(port) is Some,
        tried <= ips.len(),
        outcomes.len() == ips.len(),
        last !is Reached,
        forall|i: int| tried <= i < outcomes.len() ==> !(#[trigger] outcomes[i] is NotYet),
    ensures
        ({
            let (dialed, end) = dial_run(ips, port, outcomes, tried, last);
            &&& forall|i: int|
                0 <= i < dialed.len() ==> (#[trigger] dialed[i]) == (SocketAddr {
                    ip: ips[tried + i],
                    port: spec_parse_u16(port)->0,
                    scope_id: 0,
                })
            &&& tried + dialed.len() <= ips.len()
            &&& forall|i: int|
                tried <= i < tried + dialed.len() - 1 ==> !(#[trigger] outcomes[i] is Reached)
            &&& end is Connected <==> dialed.len() > 0 && outcomes[tried + dialed.len() - 1]
                is Reached
            &&& end !is Connected ==> tried + dialed.len() == ips.len() && end
                == DialStepView::Failed(
                if ips.len() == tried {
                    match last {
                        AttemptView::Failed(m) => m,
                        _ => "<nil>"@,
                    }
                } else {
                    outcomes.last()->Failed_0
                },
            )
        }),
    decreases ips.len() - tried,
{
    if tried < ips.len() {
        let o = outcomes[tried as int];
        let a = spec_dial_step(ips, port, tried, last)->Dial_0;
        let (rest, end) = dial_run(ips, port, outcomes, tried + 1, o);
        let (dialed, end2) = dial_run(ips, port, outcomes, tried, last);
        assert(dialed == seq![a] + rest);
        if o is Reached {
            assert(rest.len() == 0);
        } else {
            assert(!(o is NotYet));
            lemma_dial_run(ips, port, outcomes, tried + 1, o);
            assert forall|i: int| 0 <= i < dialed.len() implies (#[trigger] dialed[i]) == (
            SocketAddr {
                ip: ips[tried + i],
                port: spec_parse_u16(port)->0,
                scope_id: 0,
            }) by {
                if i > 0 {
                    assert(dialed[i] == rest[i - 1]);
                }
            }
        }
    }
}

/// The addresses of a target are dialed in their order, each at most once, up
/// to the first that is reached; the stream is connected just when one is, and
/// else fails as the last attempt did. With a port that is none, nothing is
/// dialed.
pub proof fn law_dialed_in_order(ips: Seq<IpAddr>, port: Seq<char>, outcomes: Seq<AttemptView>)
    requires
        outcomes.len() == ips.len(),
        forall|i: int| 0 <= i < outcomes.len() ==> !(#[trigger] outcomes[i] is NotYet),
    ensures
        ({
            let (dialed, end) = dial_run(ips, port, outcomes, 0, AttemptView::NotYet);
            match spec_parse_u16(port) {
                None => dialed.len() == 0 && end is Failed,
                Some(p) => {
                    &&& dialed.len() <= ips.len()
                    &&& forall|i: int|
                        0 <= i < dialed.len() ==> (#[trigger] dialed[i]) == (SocketAddr {
                            ip: ips[i],
                            port: p,
                            scope_id: 0,
                        })
                    &&& forall|k: int| #[trigger]
                        first_reached(outcomes, k) ==> dialed.len() == k + 1 && end is Connected
                    &&& (forall|i: int|
                        0 <= i < outcomes.len() ==> !(#[trigger] outcomes[i] is Reached))
                        ==> dialed.len() == ips.len() && end is Failed && (ips.len() > 0 ==> end
                        == DialStepView::Failed(outcomes.last()->Failed_0))
                },
            }
        }),
{
    let (dialed, end) = dial_run(ips, port, outcomes, 0, AttemptView::NotYet);
    if spec_parse_u16(port) is Some {
        lemma_dial_run(ips, port, outcomes, 0, AttemptView::NotYet);
        assert forall|k: int| #[trigger] first_reached(outcomes, k) implies dialed.len() == k + 1
            && end is Connected by {
            assert(outcomes[k] is Reached);
            if dialed.len() > 0 {
                let j = dialed.len() - 1;
                if j > k {
                    assert(!(outcomes[k] is Reached));
                }
                if j < k {
                    assert(!(outcomes[j] is Reached));
                }
            }
        }
    }
}

/// A stream of the peer reaches only what is allowed: every address that is
/// dialed is one that the target resolved to and that an entry of `forward`
/// allows.
pub proof fn law_dialed_is_allowed(
    a: TunnelAllow,
    entry_ips: Seq<Vec<IpAddr>>,
    resolved: Seq<IpAddr>,
    port: Seq<char>,
    outcomes: Seq<AttemptView>,
    i: int,
)
    requires
        a.spec_unresolved() || crate::tunnel_allow::rule_views(a.forward_rules@)
            == crate::tunnel_allow::spec_forward_rules(
            a.forward@,
            entry_ips,
            a.forward@.len() as int,
        ),
        ({
            let ips = crate::tunnel_allow::permitted(
                a.rules_in_force(entry_ips),
                resolved,
                port,
            );
            &&& outcomes.len() == ips.len()
            &&& forall|j: int| 0 <= j < outcomes.len() ==> !(#[trigger] outcomes[j] is NotYet)
            &&& 0 <= i < dial_run(ips, port, outcomes, 0, AttemptView::NotYet).0.len()
        }),
    ensures
        ({
            let ips = crate::tunnel_allow::permitted(
                a.rules_in_force(entry_ips),
                resolved,
                port,
            );
            let dialed = dial_run(ips, port, outcomes, 0, AttemptView::NotYet).0[i];
            &&& resolved.contains(dialed.ip)
            &&& crate::tunnel_allow::entries_allow(a.forward@, entry_ips, dialed.ip, port)
            &&& spec_parse_u16(port) == Some(dialed.port)
        }),
{
    let ips = crate::tunnel_allow::permitted(a.rules_in_force(entry_ips), resolved, port);
    law_dialed_in_order(ips, port, outcomes);
    assert(ips.contains(ips[i]));
    crate::tunnel_allow::law_forwarded_is_permitted(a, entry_ips, resolved, port, ips[i]);
}

/// The number of streams that tunnels may open: `forward_max_streams` if it is
/// positive, else the configured number.
pub fn forward_limit(forward_max_streams: i64, configured: i64) -> (n: i64)
    ensures
        n == (if forward_max_streams > 0 {
            forward_max_streams
        } else {
            configured
        }),
{
    if forward_max_streams > 0 {
        forward_max_streams
    } else {
        configured
    }
}

/// The outcome of a session by those of its two halves. When one fails the
/// other is cancelled, so a failure counts before a cancellation.
pub open spec fn spec_session_result(
    acceptor: Result<(), TunnelError>,
    listener: Result<(), TunnelError>,
) -> Result<(), TunnelError> {
    if acceptor is Err && acceptor->Err_0 !is Canceled {
        acceptor
    } else if listener is Err && listener->Err_0 !is Canceled {
        listener
    } else if acceptor is Err {
        acceptor
    } else {
        listener
    }
}

pub fn session_result(acceptor: Result<(), TunnelError>, listener: Result<(), TunnelError>) -> (r:
    Result<(), TunnelError>)
    ensures
        r == spec_session_result(acceptor, listener),
{
    match acceptor {
        Err(a) => {
            if !a.is_canceled() {
                return Err(a);
            }
            match listener {
                Err(l) => if !l.is_canceled() {
                    Err(l)
                } else {
                    Err(a)
                },
                Ok(()) => Err(a),
            }
        },
        Ok(()) => listener,
    }
}

/// A session that failed on either side does not pass for a cancelled one, nor
/// for one that went well.
pub proof fn law_failure_not_shadowed(
    acceptor: Result<(), TunnelError>,
    listener: Result<(), TunnelError>,
)
    ensures
        ({
            let r = spec_session_result(acceptor, listener);
            &&& r is Err && r->Err_0 is Canceled ==> (acceptor is Err ==> acceptor->Err_0
                is Canceled) && (listener is Err ==> listener->Err_0 is Canceled)
            &&& r is Ok ==> acceptor is Ok && listener is Ok
        }),
{
}

} // verus!
