//! What a side of a tunnel session tells its user about requests.
use vstd::prelude::*;

use crate::logger::{format_bold, spec_bold};
use crate::text::join2;
use crate::tunnel::Notice;
use crate::tunnel_request::{RequestView, TunnelRequest};

verus! {

/// A text for the user, and whether it is a warning.
#[derive(Debug)]
pub struct NoticeText {
    pub warn: bool,
    pub text: String,
}

/// `<listen> -> <target>`.
pub open spec fn route(q: RequestView) -> Seq<char> {
    q.listen + " -> "@ + q.target
}

/// What is said about a request, and whether it is a warning.
pub open spec fn spec_notice_text(n: Notice, q: RequestView, no_color: bool) -> Option<
    (bool, Seq<char>),
> {
    match n {
        Notice::Nothing => None,
        Notice::PeerRejectedLocal => Some(
            (
                true,
                "Peer rejected -L "@ + route(q) + " (peer must run with -aF "@ + q.target
                    + " to allow)"@,
            ),
        ),
        Notice::PeerRejectedRemote => Some(
            (
                true,
                "Peer rejected -R "@ + route(q) + " (peer must run with -aL "@ + q.listen
                    + " to allow)"@,
            ),
        ),
        Notice::IgnoringPeer => Some(
            (
                true,
                "Ignoring peer request -"@ + q.typ + " "@ + route(q)
                    + " (run with -aL/-aF to accept, or -a to allow all)"@,
            ),
        ),
        Notice::Forwarding => Some(
            (false, "Tunnel forwarding to "@ + spec_bold(q.target, no_color)),
        ),
    }
}

fn route_text(q: &TunnelRequest) -> (s: String)
    ensures
        s@ == route(q@),
{
    let mut s = join2(q.listen_addr.as_str(), " -> ");
    s.push_str(q.target_addr.as_str());
    s
}

/// `<head><listen> -> <target><middle><addr> to allow)`.
fn advice(head: &str, q: &TunnelRequest, middle: &str, addr: &str) -> (s: String)
    ensures
        s@ == head@ + route(q@) + middle@ + addr@ + " to allow)"@,
{
    let mut s = join2(head, route_text(q).as_str());
    s.push_str(middle);
    s.push_str(addr);
    s.push_str(" to allow)");
    s
}

pub fn notice_text(n: Notice, q: &TunnelRequest, no_color: bool) -> (r: Option<NoticeText>)
    ensures
        match spec_notice_text(n, q@, no_color) {
            None => r is None,
            Some(t) => r is Some && r->0.warn == t.0 && r->0.text@ == t.1,
        },
{
    match n {
        Notice::Nothing => None,
        Notice::PeerRejectedLocal => Some(
            NoticeText {
                warn: true,
                text: advice(
                    "Peer rejected -L ",
                    q,
                    " (peer must run with -aF ",
                    q.target_addr.as_str(),
                ),
            },
        ),
        Notice::PeerRejectedRemote => Some(
            NoticeText {
                warn: true,
                text: advice(
                    "Peer rejected -R ",
                    q,
                    " (peer must run with -aL ",
                    q.listen_addr.as_str(),
                ),
            },
        ),
        Notice::IgnoringPeer => {
            let mut s = join2("Ignoring peer request -", q.typ.as_str());
            s.push_str(" ");
            s.push_str(route_text(q).as_str());
            s.push_str(" (run with -aL/-aF to accept, or -a to allow all)");
            Some(NoticeText { warn: true, text: s })
        },
        Notice::Forwarding => Some(
            NoticeText {
                warn: false,
                text: join2(
                    "Tunnel forwarding to ",
                    format_bold(q.target_addr.as_str(), no_color).as_str(),
                ),
            },
        ),
    }
}

/// What is said when the peer may not have this side listen.
pub fn listen_refused_text(q: &TunnelRequest) -> (s: String)
    ensures
        s@ == "Ignoring peer request -R "@ + route(q@) + " (add -aL "@ + q@.listen
            + " to allow)"@,
{
    advice("Ignoring peer request -R ", q, " (add -aL ", q.listen_addr.as_str())
}

/// What is said when the peer may not reach a target.
pub fn dial_refused_text(q: &TunnelRequest) -> (s: String)
    ensures
        s@ == "Tunnel rejected: "@ + route(q@) + " (add -aF "@ + q@.target + " to allow)"@,
{
    advice("Tunnel rejected: ", q, " (add -aF ", q.target_addr.as_str())
}

} // verus!
