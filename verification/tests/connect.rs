//! On the way to a connection: the peer's address, hole punching, and ends.
use qvole::connect::{
    after_punch, bind_addr, check_peer_addr, handshake_result, ConnectError, Handshake, Level,
};
use qvole::copy::ConnFault;
use qvole::exchange::ExchangeError;
use qvole::net::{IpAddr, SocketAddr};
use qvole::pipe::{accept_end, bridge_result, PipeError, Unaccepted};
use qvole::punch::{
    is_punch_packet, punch_outcome, punch_payloads, PunchOutcome, Puncher, PUNCH_INTERVALS_MS,
    PUNCH_PAYLOAD_SIZES,
};
use qvole::stdin_reader::{ReadStart, StdinBuffer};

fn addr(d: u8, port: u16) -> SocketAddr {
    SocketAddr::new(IpAddr::v4(10, 0, 0, d), port)
}

#[test]
fn addresses_of_the_peer() {
    assert_eq!(check_peer_addr(Ok(addr(1, 5)), "10.0.0.1:5").unwrap(), addr(1, 5));
    let e = check_peer_addr(Ok(addr(1, 0)), "10.0.0.1:0").unwrap_err();
    assert_eq!(e.message(), "invalid peer address: 10.0.0.1:0");
    let any = SocketAddr::new(IpAddr::V6(0), 9);
    assert!(check_peer_addr(Ok(any), "[::]:9").is_err());
    let e = check_peer_addr(Err("invalid socket address syntax".to_string()), "x").unwrap_err();
    assert_eq!(e.message(), "resolve peer: invalid socket address syntax");
}

#[test]
fn addresses_to_bind() {
    assert_eq!(bind_addr(IpAddr::v4(1, 2, 3, 4)), "0.0.0.0:0");
    assert_eq!(bind_addr(IpAddr::V6(1)), "[::]:0");
}

#[test]
fn only_the_port_is_corrected() {
    let (peer, notices) = after_punch(addr(1, 5), PunchOutcome::Observed(addr(1, 77)));
    assert_eq!(peer, addr(1, 77));
    assert_eq!(notices.len(), 2);
    assert_eq!(notices[0].level, Level::Success);
    assert_eq!(notices[1].text, "Peer port corrected: 5 -> 77");
    let (peer, notices) = after_punch(addr(1, 5), PunchOutcome::Observed(addr(2, 77)));
    assert_eq!(peer, addr(1, 5));
    assert_eq!(notices.len(), 1);
    let (peer, notices) = after_punch(addr(1, 5), PunchOutcome::TimedOut);
    assert_eq!(peer, addr(1, 5));
    assert_eq!(notices[0].text, "Hole punch timed out, falling back to QUIC");
    let (_, notices) = after_punch(addr(1, 5), PunchOutcome::Aborted);
    assert_eq!(notices[0].level, Level::Warn);
}

#[test]
fn ends_of_a_handshake() {
    assert!(handshake_result(Handshake::Done, true).is_ok());
    let m = |h: Handshake, server: bool| handshake_result(h, server).unwrap_err().message();
    assert_eq!(m(Handshake::TimedOut, true), "accept: handshake timeout");
    assert_eq!(m(Handshake::Canceled, false), "dial: context canceled");
    assert_eq!(m(Handshake::Failed("tls".to_string()), false), "dial: tls");
}

#[test]
fn texts_of_connect_errors() {
    let s = || "x".to_string();
    let cases = [
        (ConnectError::GenerateCode(s()), "generate code: x"),
        (ConnectError::GenerateCert(s()), "generate cert: x"),
        (ConnectError::ResolveRelay(s()), "resolve relay: x"),
        (ConnectError::DialRelay(s()), "dial relay: x"),
        (ConnectError::Exchange(ExchangeError::Cancelled), "exchange: context canceled"),
        (ConnectError::Rebind(s()), "re-bind for QUIC: x"),
        (ConnectError::Listen(s()), "listen: x"),
        (ConnectError::Dial(s()), "dial: x"),
    ];
    for (e, want) in cases {
        assert_eq!(e.message(), want);
    }
}

#[test]
fn listen_for_punch_receives_from_correct_peer() {
    let peer = IpAddr::v4(127, 0, 0, 1);
    assert!(is_punch_packet(5, peer, Some(peer)));
    assert!(!is_punch_packet(5, IpAddr::v4(127, 0, 0, 2), Some(peer)));
}

#[test]
fn listen_for_punch_zero_length_packet() {
    let peer = IpAddr::v4(127, 0, 0, 1);
    assert!(!is_punch_packet(0, peer, Some(peer)));
}

#[test]
fn listen_for_punch_nil_peer_addr() {
    assert!(is_punch_packet(1, IpAddr::v4(9, 9, 9, 9), None));
}

#[test]
fn packets_of_a_punch() {
    let p = punch_payloads();
    let sizes: Vec<usize> = p.iter().map(|x| x.len()).collect();
    assert_eq!(sizes, PUNCH_PAYLOAD_SIZES);
    assert_eq!(sizes, vec![5, 50, 100, 200]);
    assert_ne!(punch_payloads()[3], p[3], "the bytes are random");
}

#[test]
fn punch_slows_down() {
    assert_eq!(PUNCH_INTERVALS_MS, [50, 100, 200]);
    let mut p = Puncher::new();
    let mut changes = Vec::new();
    let mut payloads = Vec::new();
    let mut logs = Vec::new();
    for i in 1..=100 {
        let s = p.tick();
        payloads.push(s.payload);
        if let Some(ms) = s.interval_ms {
            changes.push((i, ms));
        }
        if let Some(l) = s.log {
            logs.push(l);
        }
    }
    assert_eq!(changes, vec![(5, 100), (10, 200)]);
    assert_eq!(&payloads[..6], &[0, 1, 2, 3, 0, 1]);
    assert_eq!(logs, vec![(50, 200), (100, 200)]);
}

#[test]
fn outcomes_of_a_punch() {
    assert_eq!(punch_outcome(Some(Some(addr(1, 2)))), PunchOutcome::Observed(addr(1, 2)));
    assert_eq!(punch_outcome(Some(None)), PunchOutcome::Aborted);
    assert_eq!(punch_outcome(None), PunchOutcome::TimedOut);
}

#[test]
fn run_pipe_mode_context_cancel() {
    let end = accept_end(Unaccepted::Canceled, false, true);
    assert!(matches!(end.result, Err(PipeError::Canceled)));
    assert!(accept_end(Unaccepted::Canceled, false, false).result.is_ok());
    assert!(matches!(bridge_result(true), Err(PipeError::Canceled)));
    assert!(bridge_result(false).is_ok());
}

#[test]
fn run_pipe_mode_closed_stream() {
    let closed = |c: ConnFault| Unaccepted::Closed(c, "closed by peer: 0".to_string());
    let end = accept_end(closed(ConnFault::ApplicationClosed(0)), false, true);
    assert!(end.result.is_ok() && end.warning.is_none());
    let end = accept_end(closed(ConnFault::TimedOut), false, true);
    assert!(end.result.is_ok());
    assert_eq!(end.warning.unwrap(), "Remote host disconnected");
    let end = accept_end(closed(ConnFault::VersionMismatch), false, true);
    assert_eq!(end.result.unwrap_err().message(), "quic: closed by peer: 0");
    assert!(end.warning.is_none());
    assert_eq!(PipeError::Connect("c".to_string()).message(), "c");
}

#[test]
fn input_comes_in_order() {
    let mut b = StdinBuffer::new();
    assert!(matches!(b.start(4), ReadStart::Receive));
    assert_eq!(b.receive(Some(b"hello world".to_vec()), 4), b"hell");
    let mut got = Vec::new();
    while let ReadStart::Deliver(d) = b.start(4) {
        got.extend(d);
    }
    assert_eq!(got, b"o world");
    assert!(b.receive(Some(Vec::new()), 4).is_empty());
    assert!(b.eof);
    assert!(matches!(b.start(4), ReadStart::End));
    let mut c = StdinBuffer::new();
    assert!(c.receive(None, 4).is_empty() && c.eof);
}
