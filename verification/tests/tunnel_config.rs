//! The exchange of requests between the two sides of a tunnel, and what each
//! makes of the streams of the other.
use qvole::net::IpAddr;
use qvole::tunnel::{dial_decision, DialDecision};
use qvole::tunnel_allow::TunnelAllow;
use qvole::tunnel_config::{
    merge_requests, read_requests_from_stream, read_tunnel_config, tunnel_config_lines,
    AcceptReader, AcceptStep,
};
use qvole::tunnel_request::{TunnelRequest, MAX_TUNNEL_REQUESTS, SCANNER_MAX_TOKEN_SIZE};

fn req(typ: &str, listen: &str, target: &str) -> TunnelRequest {
    TunnelRequest {
        typ: typ.to_string(),
        listen_addr: listen.to_string(),
        target_addr: target.to_string(),
    }
}

fn local() -> TunnelRequest {
    req("L", "127.0.0.1:8080", "8.8.8.8:53")
}

fn remote() -> TunnelRequest {
    req("R", "127.0.0.1:9022", "93.184.216.34:22")
}

fn allow_all() -> TunnelAllow {
    TunnelAllow { all: true, ..Default::default() }
}

fn allow_listen(addr: &str) -> TunnelAllow {
    TunnelAllow { listen: vec![addr.to_string()], ..Default::default() }
}

/// Reads the acceptance; what follows it.
fn read_accept(data: &[u8]) -> (bool, &[u8]) {
    let mut reader = AcceptReader::new();
    let mut i = 0;
    loop {
        let step = reader.read_accept_line(data.get(i).copied());
        i += 1;
        match step {
            AcceptStep::More => {}
            AcceptStep::Done(accept) => return (accept, &data[i..]),
            AcceptStep::Failed(e) => panic!("read accept: {e}"),
        }
    }
}

type Exchanged = (bool, Vec<TunnelRequest>, usize);

/// What one side makes of the other's configuration.
fn side(mine: &Vec<TunnelRequest>, sent: &[u8], is_server: bool) -> Exchanged {
    let (accept, rest) = read_accept(sent);
    let peers = read_requests_from_stream(rest).unwrap();
    let (reqs, start) = merge_requests(mine, &peers, is_server);
    (accept, reqs, start)
}

/// What the client and the server have after the exchange.
fn exchange(
    client: (Vec<TunnelRequest>, TunnelAllow),
    server: (Vec<TunnelRequest>, TunnelAllow),
) -> (Exchanged, Exchanged) {
    let from_client = tunnel_config_lines(client.1.accepts(), &client.0).unwrap().concat();
    let from_server = tunnel_config_lines(server.1.accepts(), &server.0).unwrap().concat();
    (
        side(&client.0, from_server.as_bytes(), false),
        side(&server.0, from_client.as_bytes(), true),
    )
}

#[test]
fn test_exchange_tunnel_config_too_many_specs() {
    let reqs: Vec<TunnelRequest> = (0..MAX_TUNNEL_REQUESTS + 1).map(|_| local()).collect();
    let err = tunnel_config_lines(false, &reqs).unwrap_err();
    assert!(err.contains("too many tunnel requests"), "unexpected error: {err}");
    assert_eq!(err, "too many tunnel requests: 101 (max 100)");
}

#[test]
fn test_exchange_tunnel_config_initiator_and_responder() {
    let (client, server) =
        exchange((vec![local()], allow_all()), (vec![remote()], allow_all()));
    assert!(client.0, "expected client peerAccept=true");
    assert!(server.0, "expected server peerAccept=true");
    assert_eq!(client.1.len(), 2);
    assert_eq!(server.1.len(), 2);
    assert_eq!(client.1[0].typ, "L");
    assert_eq!(client.1[1].typ, "R");
    assert_eq!(server.1[0].typ, "L");
    assert_eq!(server.1[1].typ, "R");
    assert_eq!(client.2, 0);
    assert_eq!(server.2, 1);
}

#[test]
fn test_exchange_tunnel_config_both_sides_requests() {
    let (client, server) = exchange(
        (vec![local()], allow_listen("127.0.0.1:8080")),
        (vec![remote()], allow_listen("127.0.0.1:9022")),
    );
    assert!(client.0, "expected client peerAccept=true");
    assert!(server.0, "expected server peerAccept=true");
    assert_eq!(client.1.len(), 2);
    assert_eq!(server.1.len(), 2);
    assert_eq!(client.1[0].typ, "L");
    assert_eq!(client.1[1].typ, "R");
    assert_eq!(server.1[0].typ, "L");
    assert_eq!(server.1[1].typ, "R");
    assert_eq!(client.2, 0);
    assert_eq!(server.2, 1);
}

#[test]
fn test_exchange_tunnel_config_responder_only() {
    let (client, server) = exchange(
        (vec![local()], allow_listen("127.0.0.1:8080")),
        (vec![], allow_listen("127.0.0.1:9022")),
    );
    assert!(client.0, "expected client peerAccept=true");
    assert!(server.0, "expected server peerAccept=true");
    assert_eq!(client.1.len(), 1);
    assert_eq!(server.1.len(), 1);
    assert_eq!(client.1[0].typ, "L");
    assert_eq!(server.2, 1, "server has no own requests");
}

#[test]
fn test_exchange_tunnel_config_direct_call() {
    let (client, server) = exchange(
        (vec![local()], allow_listen("127.0.0.1:8080")),
        (vec![], TunnelAllow::default()),
    );
    assert!(server.0, "expected server peerAccept=true (client sent ACCEPT true)");
    assert!(!client.0, "expected client peerAccept=false (server sent ACCEPT false)");
    assert_eq!(client.1.len(), 1);
    assert_eq!(server.1.len(), 1);
    assert_eq!(client.1[0].typ, "L");
}

#[test]
fn test_exchange_tunnel_config_exactly_max_tunnel_requests() {
    let mut data = String::from("ACCEPT true\n");
    for _ in 0..MAX_TUNNEL_REQUESTS {
        data.push_str("L 127.0.0.1:8080 8.8.8.8:53\n");
    }
    data.push_str("END\n");
    let (accept, rest) = read_accept(data.as_bytes());
    assert!(accept);
    let reqs = read_requests_from_stream(rest)
        .expect("exactly max requests is allowed (cap is inclusive)");
    assert_eq!(reqs.len(), MAX_TUNNEL_REQUESTS);
}

#[test]
fn test_exchange_tunnel_config_exceeds_scanner_buffer() {
    let mut line = vec![b'x'; SCANNER_MAX_TOKEN_SIZE + 1];
    line[0] = b'L';
    line[1] = b' ';
    let mut data = b"ACCEPT true\n".to_vec();
    data.extend_from_slice(&line);
    data.extend_from_slice(b"\nEND\n");
    let (accept, rest) = read_accept(&data);
    assert!(accept);
    let err = read_requests_from_stream(rest).expect_err("overlong line must be an error");
    assert!(err.message().contains("too long"), "got {}", err.message());
}

#[test]
fn test_exchange_tunnel_config_malformed_line() {
    let (accept, rest) = read_accept(b"ACCEPT true\nL 127.0.0.1:8080\nEND\n");
    assert!(accept);
    let err = read_requests_from_stream(rest).expect_err("malformed line must be an error");
    assert!(err.message().contains("invalid request line"), "got {}", err.message());
}

#[test]
fn test_exchange_tunnel_config_peer_sends_too_many_specs() {
    let mut data = String::from("ACCEPT true\n");
    for _ in 0..MAX_TUNNEL_REQUESTS * 2 + 1 {
        data.push_str("L 127.0.0.1:8080 8.8.8.8:53\n");
    }
    data.push_str("END\n");
    let (_accept, rest) = read_accept(data.as_bytes());
    let err = read_requests_from_stream(rest).expect_err("too many peer specs must be an error");
    assert!(err.message().contains("too many tunnel requests"), "got {}", err.message());
}

#[test]
fn what_is_written_is_read() {
    let mine = vec![local(), remote(), req("L", ":1", "a b c")];
    for accepts in [true, false] {
        let text = tunnel_config_lines(accepts, &mine).unwrap().concat() + "more";
        let (accept, reqs) = read_tunnel_config(text.as_bytes()).unwrap();
        assert_eq!(accept, accepts);
        assert_eq!(reqs.len(), 3);
        for (a, b) in reqs.iter().zip(&mine) {
            assert_eq!(a.typ, b.typ);
            assert_eq!(a.listen_addr, b.listen_addr);
            assert_eq!(a.target_addr, b.target_addr);
        }
    }
}

#[test]
fn configurations_that_cannot_be_read() {
    let read = |data: &[u8]| read_tunnel_config(data).unwrap_err();
    assert_eq!(read(b"ACCEPT true"), "read accept: unexpected EOF");
    assert_eq!(read(b"ACCEPT maybe\nEND\n"), "unexpected line: \"ACCEPT maybe\"");
    assert_eq!(read(&[b'x'; SCANNER_MAX_TOKEN_SIZE + 1]), "read accept: token too long");
    assert_eq!(read(b"ACCEPT true\nL a\nEND\n"), "invalid request line: \"L a\"");
    assert_eq!(
        read(b"ACCEPT true\nX a b\nEND\n"),
        "invalid tunnel type \"X\" in line: \"X a b\""
    );
    assert_eq!(read(b"ACCEPT \"\t\n"), "unexpected line: \"ACCEPT \\\"\\t\"");
}

#[test]
fn test_handle_tunnel_stream_invalid_index() {
    let reqs = vec![req("L", "127.0.0.1:8080", "127.0.0.1:80")];
    let idx = (reqs.len() + 5) as u8;
    assert_eq!(dial_decision(&reqs, 0, idx, 0, 0), DialDecision::InvalidIndex(6));
}

#[test]
fn test_handle_tunnel_stream_wrong_direction() {
    let reqs = vec![local()];
    assert_eq!(dial_decision(&reqs, 0, 0, 0, 1), DialDecision::Ignore);
}

#[test]
fn test_handle_tunnel_stream_peer_r_type() {
    let reqs = vec![req("R", "127.0.0.1:8080", "8.8.8.8:53")];
    assert_eq!(dial_decision(&reqs, 0, 0, 0, 0), DialDecision::Ignore);
}

#[test]
fn test_handle_tunnel_stream_allowlist_rejection() {
    let reqs = vec![req("L", "127.0.0.1:8080", "192.0.2.1:9999")];
    assert_eq!(dial_decision(&reqs, 0, 0, 0, 0), DialDecision::DialPeer(0));
    let target = vec![IpAddr::v4(192, 0, 2, 1)];
    let none = TunnelAllow::default();
    let (ips, _, ok) = none.forward_ips(&reqs[0].target_addr, &target, &vec![]);
    assert!(!ok && ips.is_empty(), "rejected without an allowlist");

    let mut allow =
        TunnelAllow { forward: vec!["192.0.2.1:9999".to_string()], ..Default::default() };
    allow.resolve(&vec![target.clone()]);
    let (ips, port, ok) = allow.forward_ips(&reqs[0].target_addr, &target, &vec![]);
    assert!(ok, "allowed by the allowlist");
    assert_eq!(ips, target);
    assert_eq!(port, "9999");
}
