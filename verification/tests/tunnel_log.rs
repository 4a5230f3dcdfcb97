use qvole::tunnel::Notice;
use qvole::tunnel_log::{dial_refused_text, listen_refused_text, notice_text};
use qvole::tunnel_request::{parse_tunnel_request, TunnelRequest};

fn local() -> TunnelRequest {
    parse_tunnel_request("8080:localhost:80", "L").unwrap()
}

#[test]
fn notices_say_what_to_allow() {
    let q = local();
    let t = notice_text(Notice::PeerRejectedLocal, &q, true).unwrap();
    assert!(t.warn);
    assert_eq!(
        t.text,
        "Peer rejected -L 127.0.0.1:8080 -> localhost:80 (peer must run with -aF localhost:80 to allow)"
    );
    let t = notice_text(Notice::PeerRejectedRemote, &q, true).unwrap();
    assert_eq!(
        t.text,
        "Peer rejected -R 127.0.0.1:8080 -> localhost:80 (peer must run with -aL 127.0.0.1:8080 to allow)"
    );
    let t = notice_text(Notice::IgnoringPeer, &q, true).unwrap();
    assert_eq!(
        t.text,
        "Ignoring peer request -L 127.0.0.1:8080 -> localhost:80 (run with -aL/-aF to accept, or -a to allow all)"
    );
    let t = notice_text(Notice::Forwarding, &q, false).unwrap();
    assert!(!t.warn);
    assert_eq!(t.text, "Tunnel forwarding to \u{1b}[1mlocalhost:80\u{1b}[0m");
    assert!(notice_text(Notice::Nothing, &q, true).is_none());
}

#[test]
fn refusals_say_what_to_allow() {
    let q = local();
    assert_eq!(
        listen_refused_text(&q),
        "Ignoring peer request -R 127.0.0.1:8080 -> localhost:80 (add -aL 127.0.0.1:8080 to allow)"
    );
    assert_eq!(
        dial_refused_text(&q),
        "Tunnel rejected: 127.0.0.1:8080 -> localhost:80 (add -aF localhost:80 to allow)"
    );
}
