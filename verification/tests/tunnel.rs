//! A tunnel session: what both sides agree on, and what each does.
use qvole::clock::Duration;
use qvole::net::{IpAddr, SocketAddr};
use qvole::tunnel::{
    check_exchanged, collect_requests, dial_decision, dial_step, forward_limit, init_outbound_guard, is_own,
    listen_decision, parse_target_port, request_notice, session_result, stream_decision,
    stream_header, stream_idle_timeout_from, Announced, Attempt, DialDecision, DialStep, ListenDecision, Notice, TunnelError,
};
use qvole::tunnel_allow::TunnelAllow;
use qvole::tunnel_config::{
    merge_requests, read_requests_from_stream, tunnel_config_lines, AcceptReader, AcceptStep,
};
use qvole::tunnel_request::{parse_tunnel_request, TunnelRequest};

fn req(text: &str, typ: &str) -> TunnelRequest {
    parse_tunnel_request(text, typ).unwrap()
}

fn texts(s: &[&str]) -> Vec<String> {
    s.iter().map(|t| t.to_string()).collect()
}

#[test]
fn test_announce_tunnel_once() {
    let mut announced = Announced::new();
    let mut firsts = 0;
    for _ in 0..32 {
        if announced.announce_tunnel_once(7) {
            firsts += 1;
        }
    }
    assert_eq!(firsts, 1, "exactly one connection should announce");
    assert!(
        announced.announce_tunnel_once(8),
        "new spec should announce on first connection"
    );
    assert!(!announced.announce_tunnel_once(8), "spec should not announce again");

    let mut other = Announced::new();
    assert!(
        other.announce_tunnel_once(7),
        "a fresh session should announce again for the same spec index"
    );
    assert!(
        !other.announce_tunnel_once(7),
        "spec should not announce twice within one session"
    );
}

#[test]
fn test_handle_tunnel_tcp_spec_index_uint16_truncation() {
    assert_eq!(65536u32 as u16, 0, "uint16(65536) wraps around to 0");
    assert_eq!(65535u32 as u16, 65535, "uint16 max is preserved");
    assert_eq!(stream_header(65536), None, "an index that does not fit has no header");
    assert_eq!(stream_header(65535), Some(vec![0xff, 0xff]));
    assert_eq!(stream_header(258), Some(vec![1, 2]));
}

#[test]
fn test_stream_idle_timeout_configurable() {
    let zero = Duration::zero();
    assert_eq!(stream_idle_timeout_from(zero, None), zero, "default disabled");
    assert_eq!(
        stream_idle_timeout_from(zero, Some("300000")),
        Duration::from_secs(300),
        "300000ms = 5m"
    );
    assert_eq!(stream_idle_timeout_from(zero, Some("-100")), zero, "negative falls back");
    assert_eq!(stream_idle_timeout_from(zero, Some("abc")), zero, "non-numeric falls back");
    assert_eq!(
        stream_idle_timeout_from(Duration::from_secs(7), Some("300000")),
        Duration::from_secs(7),
        "override wins"
    );
}

#[test]
fn test_init_outbound_guard_resizes_per_session() {
    assert_eq!(init_outbound_guard(None, 5), Some(5), "guard capacity 5");
    assert_eq!(init_outbound_guard(Some(5), 9), Some(9), "guard capacity 9");
    assert_eq!(init_outbound_guard(Some(9), 9), None, "same-size guard kept");
    assert_eq!(init_outbound_guard(Some(9), -1), Some(0));
}

/// Reads a whole acceptance line.
fn accept(data: &[u8]) -> Result<bool, String> {
    let mut r = AcceptReader::new();
    let mut bytes = data.iter().copied();
    loop {
        match r.read_accept_line(bytes.next()) {
            AcceptStep::More => {}
            AcceptStep::Done(b) => return Ok(b),
            AcceptStep::Failed(m) => return Err(m),
        }
    }
}

#[test]
fn acceptance_lines() {
    assert_eq!(accept(b"ACCEPT true\n"), Ok(true));
    assert_eq!(accept(b"ACCEPT false\r\n"), Ok(false));
    assert_eq!(accept(b"ACCEPT maybe\n"), Err("unexpected line: \"ACCEPT maybe\"".to_string()));
    assert_eq!(accept(b"ACCEPT tr"), Err("read accept: unexpected EOF".to_string()));
    let long = vec![b'a'; 5000];
    assert_eq!(accept(&long), Err("read accept: token too long".to_string()));
}

#[test]
fn config_lines_and_merge() {
    let mine = collect_requests(&texts(&["8080:localhost:80"]), &texts(&["2222:localhost:22"])).unwrap();
    let peers = collect_requests(&texts(&["9090:db:5432"]), &texts(&[])).unwrap();
    let lines = tunnel_config_lines(true, &mine).unwrap();
    assert_eq!(
        lines,
        vec![
            "ACCEPT true\n",
            "L 127.0.0.1:8080 localhost:80\n",
            "R 127.0.0.1:2222 localhost:22\n",
            "END\n"
        ]
    );
    let read = read_requests_from_stream(lines[1..].concat().as_bytes()).unwrap();
    assert_eq!(read.len(), 2);
    assert_eq!(read[1].target_addr, "localhost:22");

    let (server, server_start) = merge_requests(&mine, &peers, true);
    let (client, client_start) = merge_requests(&peers, &mine, false);
    assert_eq!(server_start, 1);
    assert_eq!(client_start, 0);
    let names = |v: &Vec<TunnelRequest>| -> Vec<String> {
        v.iter().map(|q| q.listen_addr.clone()).collect()
    };
    assert_eq!(names(&server), names(&client));
    assert!(is_own(1, server_start, mine.len()) && !is_own(0, server_start, mine.len()));
}

#[test]
fn bad_requests_are_named() {
    let err = collect_requests(&texts(&["1:h:2", "bad"]), &texts(&[])).unwrap_err();
    assert!(err.starts_with("invalid -L spec \"bad\": expected"), "{err}");
}

#[test]
fn one_side_listens_and_the_other_dials() {
    let all = TunnelAllow { all: true, ..Default::default() };
    let none = TunnelAllow::default();
    let l = req("8080:localhost:80", "L");
    let r = req("2222:localhost:22", "R");
    assert_eq!(listen_decision(&l, true, true, &none), ListenDecision::Listen);
    assert_eq!(listen_decision(&l, true, false, &none), ListenDecision::Skip);
    assert_eq!(listen_decision(&l, false, true, &all), ListenDecision::Skip);
    assert_eq!(listen_decision(&r, true, true, &all), ListenDecision::Skip);
    assert_eq!(listen_decision(&r, false, true, &all), ListenDecision::Listen);
    assert_eq!(listen_decision(&r, false, true, &none), ListenDecision::Refuse);

    let reqs = vec![l, r];
    // Both requests are one's own: only the remote one is dialed here.
    assert_eq!(dial_decision(&reqs, 0, 0, 0, 2), DialDecision::Ignore);
    assert_eq!(dial_decision(&reqs, 0, 1, 0, 2), DialDecision::DialOwn(1));
    // Both are the peer's: only the local one is.
    assert_eq!(dial_decision(&reqs, 0, 0, 0, 0), DialDecision::DialPeer(0));
    assert_eq!(dial_decision(&reqs, 0, 1, 0, 0), DialDecision::Ignore);
    assert_eq!(dial_decision(&reqs, 1, 0, 0, 0), DialDecision::InvalidIndex(256));
}

#[test]
fn a_stream_cut_short_selects_nothing() {
    let reqs = vec![req("8080:localhost:80", "L")];
    assert_eq!(stream_decision(&reqs, &[], 0, 0), DialDecision::Ignore);
    assert_eq!(stream_decision(&reqs, &[0], 0, 0), DialDecision::Ignore);
    assert_eq!(stream_decision(&reqs, &[0, 0], 0, 0), DialDecision::DialPeer(0));
    assert_eq!(stream_decision(&reqs, &[2, 1], 0, 0), DialDecision::InvalidIndex(513));
}

#[test]
fn a_session_needs_a_request() {
    let e = check_exchanged(&vec![]).unwrap_err();
    assert!(matches!(e, TunnelError::Other(_)));
    assert_eq!(e.message(), "no tunnel requests exchanged");
    assert!(check_exchanged(&vec![req("8080:localhost:80", "L")]).is_ok());
}

#[test]
fn notices_of_requests() {
    let all = TunnelAllow { all: true, ..Default::default() };
    let none = TunnelAllow::default();
    let l = req("8080:localhost:80", "L");
    let r = req("2222:localhost:22", "R");
    assert_eq!(request_notice(&l, true, false, &none), Notice::PeerRejectedLocal);
    assert_eq!(request_notice(&r, true, false, &none), Notice::PeerRejectedRemote);
    assert_eq!(request_notice(&l, false, true, &none), Notice::IgnoringPeer);
    assert_eq!(request_notice(&r, true, true, &none), Notice::Forwarding);
    assert_eq!(request_notice(&l, false, true, &all), Notice::Forwarding);
    assert_eq!(request_notice(&l, true, true, &none), Notice::Nothing);
}

#[test]
fn ports_and_limits() {
    assert_eq!(parse_target_port("80"), Ok(80));
    assert_eq!(parse_target_port("65536"), Err("invalid port \"65536\"".to_string()));
    assert_eq!(parse_target_port("-0"), Err("invalid port \"-0\"".to_string()));
    assert_eq!(forward_limit(0, 200), 200);
    assert_eq!(forward_limit(3, 200), 3);
}

#[test]
fn failures_count_before_cancellations() {
    let fail = || Err(TunnelError::Other("listen".to_string()));
    let stop = || Err(TunnelError::Canceled);
    assert_eq!(session_result(stop(), fail()).unwrap_err().message(), "listen");
    assert_eq!(session_result(fail(), stop()).unwrap_err().message(), "listen");
    assert!(session_result(stop(), Ok(())).unwrap_err().is_canceled());
    assert!(session_result(Ok(()), Ok(())).is_ok());
    assert_eq!(TunnelError::Connect("dial: x".to_string()).message(), "dial: x");
}

/// The addresses that are dialed when only `reachable` can be reached, and how
/// it ends.
fn dial(ips: &Vec<IpAddr>, port: &str, reachable: &[IpAddr]) -> (Vec<SocketAddr>, Option<String>) {
    let mut dialed = vec![];
    let mut last = Attempt::NotYet;
    loop {
        match dial_step(ips, port, dialed.len(), last) {
            DialStep::Dial(a) => {
                last = if reachable.contains(&a.ip) {
                    Attempt::Reached
                } else {
                    Attempt::Failed(format!("refused {}", dialed.len()))
                };
                dialed.push(a);
            }
            DialStep::Connected => return (dialed, None),
            DialStep::Failed(e) => return (dialed, Some(e)),
        }
    }
}

#[test]
fn addresses_are_dialed_in_order() {
    let ips: Vec<IpAddr> = (1..4).map(|i| IpAddr::v4(192, 0, 2, i)).collect();
    let at = |i: usize| SocketAddr::new(ips[i], 80);
    assert_eq!(dial(&ips, "80", &[ips[0]]), (vec![at(0)], None));
    assert_eq!(dial(&ips, "80", &[ips[1], ips[2]]), (vec![at(0), at(1)], None));
    let all = vec![at(0), at(1), at(2)];
    assert_eq!(dial(&ips, "80", &[ips[2]]), (all.clone(), None));
    assert_eq!(dial(&ips, "80", &[]), (all, Some("refused 2".to_string())));
    assert_eq!(dial(&ips, "x", &ips), (vec![], Some("invalid port \"x\"".to_string())));
    assert_eq!(dial(&vec![], "80", &[]), (vec![], Some("<nil>".to_string())));
}
