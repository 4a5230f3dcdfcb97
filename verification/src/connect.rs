//! Decisions on the way to a connection with the peer.
use vstd::prelude::*;

use crate::exchange::{exchange_error_text, ExchangeError};
use crate::net::{IpAddr, SocketAddr};
use crate::number::{decimal, spec_decimal};
use crate::punch::PunchOutcome;
use crate::text::join2;

verus! {

/// Why there is no connection with the peer.
#[derive(Debug)]
pub enum ConnectError {
    GenerateCode(String),
    GenerateCert(String),
    ResolveRelay(String),
    DialRelay(String),
    Exchange(ExchangeError),
    Rebind(String),
    ResolvePeer(String),
    InvalidPeerAddr(String),
    Listen(String),
    Accept(String),
    Dial(String),
}

impl ConnectError {
    /// The text of an error.
    pub open spec fn spec_message(&self) -> Seq<char> {
        match self {
            ConnectError::GenerateCode(m) => "generate code: "@ + m@,
            ConnectError::GenerateCert(m) => "generate cert: "@ + m@,
            ConnectError::ResolveRelay(m) => "resolve relay: "@ + m@,
            ConnectError::DialRelay(m) => "dial relay: "@ + m@,
            ConnectError::Exchange(e) => "exchange: "@ + exchange_error_text(e@),
            ConnectError::Rebind(m) => "re-bind for QUIC: "@ + m@,
            ConnectError::ResolvePeer(m) => "resolve peer: "@ + m@,
            ConnectError::InvalidPeerAddr(m) => "invalid peer address: "@ + m@,
            ConnectError::Listen(m) => "listen: "@ + m@,
            ConnectError::Accept(m) => "accept: "@ + m@,
            ConnectError::Dial(m) => "dial: "@ + m@,
        }
    }

    pub fn message(&self) -> (s: String)
        ensures
            s@ == self.spec_message(),
    {
        match self {
            ConnectError::GenerateCode(m) => join2("generate code: ", m.as_str()),
            ConnectError::GenerateCert(m) => join2("generate cert: ", m.as_str()),
            ConnectError::ResolveRelay(m) => join2("resolve relay: ", m.as_str()),
            ConnectError::DialRelay(m) => join2("dial relay: ", m.as_str()),
            ConnectError::Exchange(e) => join2("exchange: ", e.message().as_str()),
            ConnectError::Rebind(m) => join2("re-bind for QUIC: ", m.as_str()),
            ConnectError::ResolvePeer(m) => join2("resolve peer: ", m.as_str()),
            ConnectError::InvalidPeerAddr(m) => join2("invalid peer address: ", m.as_str()),
            ConnectError::Listen(m) => join2("listen: ", m.as_str()),
            ConnectError::Accept(m) => join2("accept: ", m.as_str()),
            ConnectError::Dial(m) => join2("dial: ", m.as_str()),
        }
    }
}

/// The address that a socket to reach `ip` is bound to: any, of the same kind.
pub fn bind_addr(ip: IpAddr) -> (s: &'static str)
    ensures
        s@ == match ip {
            IpAddr::V4(_) => "0.0.0.0:0"@,
            IpAddr::V6(_) => "[::]:0"@,
        },
{
    match ip {
        IpAddr::V4(_) => "0.0.0.0:0",
        IpAddr::V6(_) => "[::]:0",
    }
}

/// The address can be sent to.
pub open spec fn usable_peer(addr: SocketAddr) -> bool {
    addr.ip != IpAddr::V4(0) && addr.ip != IpAddr::V6(0) && addr.port != 0
}

/// What the peer's address, which reads `text`, was parsed as: it is refused
/// when it was none, or one that cannot be sent to.
pub fn check_peer_addr(parsed: Result<SocketAddr, String>, text: &str) -> (r: Result<
    SocketAddr,
    ConnectError,
>)
    ensures
        match parsed {
            Err(m) => r is Err && r->Err_0 is ResolvePeer && r->Err_0->ResolvePeer_0@ == m@,
            Ok(a) => if usable_peer(a) {
                r == Ok::<SocketAddr, ConnectError>(a)
            } else {
                r is Err && r->Err_0 is InvalidPeerAddr && r->Err_0->InvalidPeerAddr_0@ == text@
            },
        },
{
    match parsed {
        Err(m) => Err(ConnectError::ResolvePeer(m)),
        Ok(a) => if a.ip.is_unspecified() || a.port == 0 {
            Err(ConnectError::InvalidPeerAddr(text.to_owned()))
        } else {
            Ok(a)
        },
    }
}

/// The peer's address after the hole punch: where its first packet came from,
/// if only the port differs.
pub open spec fn corrected_peer(peer: SocketAddr, outcome: PunchOutcome) -> SocketAddr {
    match outcome {
        PunchOutcome::Observed(seen) => if seen.ip == peer.ip && seen.port != peer.port {
            seen
        } else {
            peer
        },
        _ => peer,
    }
}

/// How a message is shown.
#[derive(Clone, Copy, Debug, PartialEq, Eq, Structural)]
pub enum Level {
    Info,
    Warn,
    Success,
}

/// A message and how it is shown.
#[derive(Debug)]
pub struct Notice {
    pub level: Level,
    pub text: String,
}

/// What is said of the outcome of a hole punch.
pub open spec fn punch_notice(outcome: PunchOutcome) -> (Level, Seq<char>) {
    match outcome {
        PunchOutcome::Observed(_) => (Level::Success, "Hole punch succeeded"@),
        PunchOutcome::Aborted => (Level::Warn, "Hole punch aborted, falling back to QUIC"@),
        PunchOutcome::TimedOut => (Level::Warn, "Hole punch timed out, falling back to QUIC"@),
    }
}

/// What is said when the peer's port turned out to be another one.
pub open spec fn port_notice(old_port: u16, new_port: u16) -> Seq<char> {
    "Peer port corrected: "@ + spec_decimal(old_port as nat) + " -> "@ + spec_decimal(
        new_port as nat,
    )
}

/// The peer's address after the hole punch, and what is said of it.
pub fn after_punch(peer: SocketAddr, outcome: PunchOutcome) -> (r: (SocketAddr, Vec<Notice>))
    ensures
        r.0 == corrected_peer(peer, outcome),
        r.1@.len() == if r.0 == peer {
            1int
        } else {
            2int
        },
        r.1@[0].level == punch_notice(outcome).0,
        r.1@[0].text@ == punch_notice(outcome).1,
        r.0 != peer ==> r.1@[1].level == Level::Info && r.1@[1].text@ == port_notice(
            peer.port,
            r.0.port,
        ),
{
    let mut notices: Vec<Notice> = Vec::new();
    match outcome {
        PunchOutcome::Observed(seen) => {
            notices.push(
                Notice { level: Level::Success, text: "Hole punch succeeded".to_owned() },
            );
            if seen.ip == peer.ip && seen.port != peer.port {
                let mut text = join2(
                    "Peer port corrected: ",
                    decimal(peer.port as u64).as_str(),
                );
                text.push_str(" -> ");
                text.push_str(decimal(seen.port as u64).as_str());
                notices.push(Notice { level: Level::Info, text });
                return (seen, notices);
            }
        },
        PunchOutcome::Aborted => {
            notices.push(
                Notice {
                    level: Level::Warn,
                    text: "Hole punch aborted, falling back to QUIC".to_owned(),
                },
            );
        },
        PunchOutcome::TimedOut => {
            notices.push(
                Notice {
                    level: Level::Warn,
                    text: "Hole punch timed out, falling back to QUIC".to_owned(),
                },
            );
        },
    }
    (peer, notices)
}

/// How waiting for a handshake ended.
#[derive(Debug)]
pub enum Handshake {
    /// The connection stands.
    Done,
    TimedOut,
    Canceled,
    Failed(String),
}

/// What is said of a handshake that did not succeed.
pub open spec fn handshake_error(h: Handshake) -> Option<Seq<char>> {
    match h {
        Handshake::Done => None,
        Handshake::TimedOut => Some("handshake timeout"@),
        Handshake::Canceled => Some("context canceled"@),
        Handshake::Failed(m) => Some(m@),
    }
}

/// The result of the handshake on the side that accepts or dials.
pub fn handshake_result(h: Handshake, is_server: bool) -> (r: Result<(), ConnectError>)
    ensures
        match handshake_error(h) {
            None => r is Ok,
            Some(m) => if is_server {
                r is Err && r->Err_0 is Accept && r->Err_0->Accept_0@ == m
            } else {
                r is Err && r->Err_0 is Dial && r->Err_0->Dial_0@ == m
            },
        },
{
    let m = match h {
        Handshake::Done => {
            return Ok(());
        },
        Handshake::TimedOut => "handshake timeout".to_owned(),
        Handshake::Canceled => "context canceled".to_owned(),
        Handshake::Failed(m) => m,
    };
    if is_server {
        Err(ConnectError::Accept(m))
    } else {
        Err(ConnectError::Dial(m))
    }
}

/// Whatever comes of a hole punch, the peer is still sought at the IP address
/// that it gave.
pub proof fn law_peer_ip_kept(peer: SocketAddr, outcome: PunchOutcome)
    ensures
        corrected_peer(peer, outcome).ip == peer.ip,
        outcome !is Observed ==> corrected_peer(peer, outcome) == peer,
{
}

/// The peer is sought at the port that its packet came from: from its IP
/// address, any port that was observed is taken over, higher or lower. A packet
/// from elsewhere changes nothing.
pub proof fn law_observed_port_taken_over(peer: SocketAddr, seen: SocketAddr)
    ensures
        ({
            let after = corrected_peer(peer, PunchOutcome::Observed(seen));
            &&& seen.ip == peer.ip ==> after.port == seen.port
            &&& seen.ip == peer.ip && seen.port != peer.port ==> after == seen
            &&& seen.ip != peer.ip || seen.port == peer.port ==> after == peer
        }),
        corrected_peer(peer, PunchOutcome::Aborted) == peer,
        corrected_peer(peer, PunchOutcome::TimedOut) == peer,
{
}

/// An address can be sent to just when it names an interface and a port.
pub proof fn law_usable_peer(a: SocketAddr)
    ensures
        usable_peer(a) <==> a.port > 0 && match a.ip {
            IpAddr::V4(v) => v > 0,
            IpAddr::V6(v) => v > 0,
        },
{
}

/// A hole punch that was given up or took too long is said to fall back to
/// QUIC, and only one that was observed is a success.
pub proof fn law_punch_reported(outcome: PunchOutcome)
    ensures
        punch_notice(outcome).0 == Level::Success <==> outcome is Observed,
        punch_notice(outcome).0 == Level::Warn <==> !(outcome is Observed),
{
}

/// A handshake that is not done is an error, and says why.
pub proof fn law_handshake(h: Handshake)
    ensures
        handshake_error(h) is None <==> h is Done,
        h is Failed ==> handshake_error(h) == Some(h->Failed_0@),
{
}

} // verus!
