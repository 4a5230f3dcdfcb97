//! Tunnel requests: their form on the command line and on the wire.
use qvole::env::Env;
use qvole::transport::get_forward_max_streams;
use qvole::tunnel_config::read_requests_from_stream;
use qvole::tunnel_request::{
    parse_tunnel_request, split_tunnel_request, TunnelRequest, TunnelRequestError,
    MAX_TUNNEL_REQUESTS, SCANNER_MAX_TOKEN_SIZE,
};

fn req(spec: &str, typ: &str) -> TunnelRequest {
    parse_tunnel_request(spec, typ).unwrap_or_else(|e| panic!("parse {spec:?}: {e}"))
}

#[test]
fn parse_tunnel_request_local_3part() {
    let s = req("8080:localhost:80", "L");
    assert_eq!(s.typ, "L");
    assert_eq!(s.listen_addr, "127.0.0.1:8080");
    assert_eq!(s.target_addr, "localhost:80");
}

#[test]
fn parse_tunnel_request_local_4part() {
    let s = req("0.0.0.0:8080:localhost:80", "L");
    assert_eq!(s.listen_addr, "0.0.0.0:8080");
    assert_eq!(s.target_addr, "localhost:80");
}

#[test]
fn parse_tunnel_request_remote_3part() {
    let s = req("9000:localhost:22", "R");
    assert_eq!(s.typ, "R");
    assert_eq!(s.listen_addr, "127.0.0.1:9000");
    assert_eq!(s.target_addr, "localhost:22");
}

#[test]
fn parse_tunnel_request_remote_4part() {
    let s = req("127.0.0.1:9000:localhost:22", "R");
    assert_eq!(s.listen_addr, "127.0.0.1:9000");
    assert_eq!(s.target_addr, "localhost:22");
}

#[test]
fn parse_tunnel_request_ipv6_listen() {
    let s = req("[::1]:8080:localhost:80", "L");
    assert_eq!(s.listen_addr, "[::1]:8080");
    assert_eq!(s.target_addr, "localhost:80");
}

#[test]
fn parse_tunnel_request_ipv6_target() {
    let s = req("8080:[::1]:80", "L");
    assert_eq!(s.listen_addr, "127.0.0.1:8080");
    assert_eq!(s.target_addr, "[::1]:80");
}

#[test]
fn parse_tunnel_request_ipv6_both() {
    let s = req("[::1]:8080:[::1]:80", "L");
    assert_eq!(s.listen_addr, "[::1]:8080");
    assert_eq!(s.target_addr, "[::1]:80");
}

#[test]
fn split_tunnel_request_edge_cases() {
    let cases: &[(&str, Option<usize>)] = &[
        ("8080:localhost:80", Some(3)),
        ("127.0.0.1:8080:localhost:80", Some(4)),
        ("[::1]:8080:localhost:80", Some(4)),
        ("[::1]:8080:[::1]:80", Some(4)),
        ("", Some(1)),
        ("a:b", Some(2)),
        ("a:b:c", Some(3)),
        ("a:b:c:d", Some(4)),
        (":::", Some(4)),
        ("[::1", None),
        ("]abc[", None),
        ("[", None),
        ("[[::]]:80:80", Some(3)),
    ];
    for (spec, want) in cases {
        let parts = split_tunnel_request(spec);
        match want {
            None => {
                assert!(
                    parts.is_none(),
                    "SplitTunnelRequest({spec:?}) = {parts:?}, want None"
                )
            }
            Some(n) => {
                let parts = parts.unwrap_or_else(|| {
                    panic!("SplitTunnelRequest({spec:?}) = None, want {n} parts")
                });
                assert_eq!(
                    parts.len(),
                    *n,
                    "SplitTunnelRequest({spec:?}) = {parts:?} ({} parts), want {n} parts",
                    parts.len()
                );
            }
        }
    }
}

#[test]
fn parse_tunnel_request_invalid() {
    let cases = [
        ("invalid", "L"),
        ("a:b:c:d:e", "L"),
        ("", "L"),
        ("a:b", "L"),
        ("8080", "L"),
        ("[::1:8080:localhost:80", "L"),
    ];
    for (spec, typ) in cases {
        assert!(
            parse_tunnel_request(spec, typ).is_err(),
            "expected error for spec {spec:?} type {typ:?}"
        );
    }
}

#[test]
fn tunnel_constants() {
    assert_eq!(
        get_forward_max_streams(None, &Env::new()),
        200
    );
    assert_eq!(MAX_TUNNEL_REQUESTS, 100);
    assert_eq!(SCANNER_MAX_TOKEN_SIZE, 4096);
}

#[test]
fn parse_tunnel_request_4part_empty_listen_host() {
    // Empty listen host in ":8080:host:80" defaults to 127.0.0.1.
    let s = req(":8080:localhost:80", "L");
    assert_eq!(s.listen_addr, "127.0.0.1:8080");
    assert_eq!(s.target_addr, "localhost:80");
}

#[test]
fn parse_tunnel_request_4part_explicit_all_interfaces() {
    // Explicit 0.0.0.0 should be preserved.
    let s = req("0.0.0.0:8080:localhost:80", "L");
    assert_eq!(s.listen_addr, "0.0.0.0:8080");
}

#[test]
fn tunnel_request_struct() {
    let s = TunnelRequest {
        typ: "L".into(),
        listen_addr: "127.0.0.1:8080".into(),
        target_addr: "8.8.8.8:53".into(),
    };
    assert_eq!(s.typ, "L");
    assert_eq!(s.listen_addr, "127.0.0.1:8080");
    assert_eq!(s.target_addr, "8.8.8.8:53");
}

#[test]
fn parse_tunnel_request_port_only() {
    assert!(
        parse_tunnel_request("8080", "L").is_err(),
        "expected error for single-part spec"
    );
}

fn build_requests(n: usize) -> Vec<u8> {
    let mut out = Vec::new();
    for _ in 0..n {
        out.extend_from_slice(b"L 127.0.0.1:8080 localhost:80\n");
    }
    out.extend_from_slice(b"END\n");
    out
}

#[test]
fn read_requests_from_stream_peer_cap() {
    // maxTunnelRequests is the per-side cap: exactly that many are accepted.
    let reader = build_requests(MAX_TUNNEL_REQUESTS);
    let reqs = read_requests_from_stream(&reader)
        .expect("exactly at cap is allowed");
    assert_eq!(reqs.len(), MAX_TUNNEL_REQUESTS);

    // One more exceeds the per-side cap.
    let reader = build_requests(MAX_TUNNEL_REQUESTS + 1);
    assert!(
        read_requests_from_stream(&reader).is_err(),
        "expected error when peer exceeds maxTunnelRequests"
    );
}

#[test]
fn read_requests_from_stream_rejects_invalid_type() {
    let valid_cases = [
        "L 127.0.0.1:8080 localhost:80\nEND\n",
        "R 127.0.0.1:8080 localhost:80\nEND\n",
        "L 127.0.0.1:8080 localhost:80\nR 127.0.0.1:9090 localhost:22\nEND\n",
    ];
    for input in valid_cases {
        let reader = input.as_bytes().to_vec();
        let reqs = read_requests_from_stream(&reader)
            .unwrap_or_else(|e| panic!("valid case {input:?}: {}", e.message()));
        assert!(
            !reqs.is_empty(),
            "valid case {input:?}: expected non-empty requests"
        );
    }

    let invalid_cases = [
        "X 127.0.0.1:8080 localhost:80\nEND\n",
        "LR 127.0.0.1:8080 localhost:80\nEND\n",
        "l 127.0.0.1:8080 localhost:80\nEND\n",
        " 127.0.0.1:8080 localhost:80\nEND\n",
    ];
    for input in invalid_cases {
        let reader = input.as_bytes().to_vec();
        assert!(
            read_requests_from_stream(&reader).is_err(),
            "invalid case {input:?}: expected error"
        );
    }
}

#[test]
fn read_requests_from_stream_token_too_long() {
    let mut input: Vec<u8> = Vec::new();
    input.extend_from_slice(b"L ");
    input.extend_from_slice(&[b'a'; SCANNER_MAX_TOKEN_SIZE + 1]);
    input.extend_from_slice(b"\nEND\n");
    let reader = input;
    let err = read_requests_from_stream(&reader).unwrap_err();
    assert!(matches!(err, TunnelRequestError::Read(_)));
    let msg = err.message();
    assert!(msg.contains("token too long"), "got: {msg}");
}

#[test]
fn read_requests_from_stream_final_line_without_newline() {
    let input = b"L 127.0.0.1:8080 localhost:80"; // no trailing END/newline
    let reader = input.to_vec();
    let reqs = read_requests_from_stream(&reader).unwrap();
    assert_eq!(reqs.len(), 1);
    assert_eq!(reqs[0].target_addr, "localhost:80");
}

#[test]
fn read_requests_from_stream_strips_control_chars_in_addrs() {
    // parse_addr drops control characters from peer-supplied addrs.
    let input: Vec<u8> = b"L 127.0.0.1:808\x010 localhost:80\nEND\n".to_vec();
    let reader = input;
    let reqs = read_requests_from_stream(&reader).unwrap();
    assert_eq!(reqs.len(), 1);
    assert_eq!(
        reqs[0].listen_addr, "127.0.0.1:8080",
        "control char stripped"
    );
    assert_eq!(reqs[0].target_addr, "localhost:80");
}

#[test]
fn read_requests_from_stream_tab_is_not_a_delimiter() {
    let input = b"L\t127.0.0.1:8080 localhost:80\nEND\n";
    let reader = input.to_vec();
    let err = read_requests_from_stream(&reader).unwrap_err();
    assert!(
        matches!(err, TunnelRequestError::InvalidLine(_)),
        "got: {err:?}"
    );
}

