//! The exchange with the peer through the relay.
use qvole::clock::{Duration, Instant};
use qvole::env::Env;
use qvole::exchange::{
    address_of, build_confirm_payload, confirm_nonce, confirm_to_check, confirm_to_send,
    detect_outbound_addr, open_confirm,
    pad_address, parse_spake, process_confirm_msg, process_spake_msg, CheckedConfirm,
    ExchangeError, KeyError, PeerConfig, SessionKeys, CONFIRM_PAYLOAD_SIZE, MAX_METADATA_SIZE,
    SPAKE2_PAYLOAD_LEN,
};
use qvole::hex::to_hex_lower;
use qvole::net::{IpAddr, SocketAddr};
use qvole::session::{Received, Session, Timing};

const KEYS: SessionKeys = SessionKeys { confirm_key: [1; 32], enc_key: [2; 32] };

/// A point in its uncompressed form.
fn point(b: u8) -> Vec<u8> {
    let mut p = vec![b; 65];
    p[0] = 4;
    p
}

/// The announcement of a peer.
fn announcement(m: u8, n: u8, fp: u8) -> Vec<u8> {
    let mut p = point(m);
    p.extend(point(n));
    p.extend([fp; 32]);
    p
}

/// A confirmation whose address is not encrypted.
fn confirm(addr: &str) -> Vec<u8> {
    let plain = pad_address(addr).unwrap();
    let mut enc = vec![0u8; 12];
    enc.extend(&plain);
    enc.extend([0u8; 16]);
    build_confirm_payload(&confirm_nonce(), Ok(vec![3; 32]), addr, Ok(enc)).unwrap()
}

#[test]
fn detect_outbound_addr_specific_ip() {
    let a = SocketAddr::new(IpAddr::v4(127, 0, 0, 1), 12345);
    let addr = detect_outbound_addr(a, "127.0.0.1:12345");
    let (host, port) = addr.rsplit_once(':').unwrap();
    assert_eq!(host, "127.0.0.1");
    assert!(!port.is_empty());
}

#[test]
fn detect_outbound_addr_unspecified_fallback() {
    let addr = detect_outbound_addr(SocketAddr::new(IpAddr::V4(0), 54321), "0.0.0.0:54321");
    let (host, port) = addr.rsplit_once(':').unwrap();
    assert!(!host.is_empty() && host != "0.0.0.0");
    assert!(!port.is_empty());
}

#[test]
fn detect_outbound_addr_ipv6() {
    let addr = detect_outbound_addr(SocketAddr::new(IpAddr::V6(1), 54321), "[::1]:54321");
    assert!(addr.contains("54321"));
}

#[test]
fn detect_outbound_addr_ipv6_unspecified() {
    let addr = detect_outbound_addr(SocketAddr::new(IpAddr::V6(0), 54321), "[::]:54321");
    let (host, port) = addr.rsplit_once(':').unwrap();
    assert!(host != "::");
    assert!(!port.is_empty());
}

#[test]
fn process_spake_msg_too_short() {
    let short_hex = to_hex_lower(&[0u8; 30]);
    let err = process_spake_msg(&short_hex, &point(1), &point(2), Ok(KEYS)).unwrap_err();
    assert!(err.message().contains("too short"));
}

#[test]
fn process_spake_msg_invalid_hex() {
    let err =
        process_spake_msg("not-a-valid-hex-string!", &point(1), &point(2), Ok(KEYS)).unwrap_err();
    assert!(err.message().contains("hex"));
}

#[test]
fn process_spake_msg_success() {
    let payload = announcement(9, 8, 7);
    assert_eq!(payload.len(), SPAKE2_PAYLOAD_LEN);
    let hex_body = to_hex_lower(&payload);
    let proc = process_spake_msg(&hex_body, &point(1), &point(2), Ok(KEYS)).unwrap();
    assert_eq!(proc.effective_my_point.len(), 65);
    assert_eq!(proc.effective_peer_point.len(), 65);
    assert_eq!(proc.peer_fingerprint.len(), 32);
    assert_eq!(proc.confirm_key.len(), 32);
    assert_eq!(proc.enc_key.len(), 32);
    assert_eq!(proc.peer_fingerprint, vec![7u8; 32]);
    assert!(!proc.is_server, "the greater point M makes the server");
    assert_eq!(proc.effective_my_point, point(1));
    assert_eq!(proc.effective_peer_point, point(8));
}

#[test]
fn process_spake_msg_reflected_point() {
    let hex_body = to_hex_lower(&announcement(1, 2, 7));
    let err = process_spake_msg(&hex_body, &point(1), &point(2), Ok(KEYS)).unwrap_err();
    assert!(err.message().contains("reflected"));
}

#[test]
fn both_peers_take_the_same_roles() {
    let a = parse_spake(&to_hex_lower(&announcement(9, 8, 7)), &point(1), &point(2)).unwrap();
    let b = parse_spake(&to_hex_lower(&announcement(1, 2, 6)), &point(9), &point(8)).unwrap();
    assert!(!a.is_server && b.is_server);
    assert_eq!(a.effective_my_point, b.effective_peer_point);
    assert_eq!(b.effective_my_point, a.effective_peer_point);
}

#[test]
fn failures_of_the_key_agreement() {
    let body = to_hex_lower(&announcement(9, 8, 7));
    let shared = Err(KeyError::Shared("bad point".to_string()));
    let e = process_spake_msg(&body, &point(1), &point(2), shared).unwrap_err();
    assert_eq!(e.message(), "spake2 state: bad point");
    let derive = Err(KeyError::Derive("kdf".to_string()));
    let e = process_spake_msg(&body, &point(1), &point(2), derive).unwrap_err();
    assert_eq!(e.message(), "spake2 derive key: kdf");
}

#[test]
fn build_confirm_payload_size() {
    assert_eq!(confirm("10.0.0.1:8080").len(), CONFIRM_PAYLOAD_SIZE);
}

#[test]
fn build_confirm_payload_nonce_random() {
    let p1 = confirm("10.0.0.1:8080");
    let p2 = confirm("10.0.0.1:8080");
    assert_ne!(&p1[..16], &p2[..16], "nonce should be random");
    assert_ne!(&p1[128..], &p2[128..], "padding should be random");
}

#[test]
fn build_confirm_payload_address_too_long() {
    let long_addr = "x".repeat(MAX_METADATA_SIZE + 1);
    let err = build_confirm_payload(&confirm_nonce(), Ok(vec![0; 32]), &long_addr, Ok(vec![]))
        .unwrap_err();
    assert!(err.message().contains("address too long"));
    assert_eq!(err.message(), "address too long: 53 bytes (max 52)");
    assert!(pad_address(&long_addr).is_err());
}

#[test]
fn build_confirm_payload_failures() {
    let e = build_confirm_payload(&[0; 16], Err("mac".to_string()), "a:1", Ok(vec![])).unwrap_err();
    assert_eq!(e.message(), "compute confirm: mac");
    let e = build_confirm_payload(&[0; 16], Ok(vec![]), "a:1", Err("aead".to_string())).unwrap_err();
    assert_eq!(e.message(), "encrypt addr: aead");
}

fn checked(verified: bool, plain: &str) -> CheckedConfirm {
    CheckedConfirm { verified, plain: Ok(pad_address(plain).unwrap()) }
}

#[test]
fn process_confirm_msg_too_short() {
    let short_hex = to_hex_lower(&[0u8; 64]);
    let err = process_confirm_msg(&short_hex, &checked(true, "a")).unwrap_err();
    assert!(matches!(err, ExchangeError::ConfirmPayloadTooShort));
}

#[test]
fn process_confirm_msg_invalid_hex() {
    let err = process_confirm_msg("not-hex!!!", &checked(true, "a")).unwrap_err();
    assert!(matches!(err, ExchangeError::Hex(_)));
}

#[test]
fn process_confirm_msg_wrong_key() {
    let hex_payload = to_hex_lower(&confirm("10.0.0.1:8080"));
    let err = process_confirm_msg(&hex_payload, &checked(false, "10.0.0.1:8080")).unwrap_err();
    assert!(err.message().contains("confirmation mismatch"));
    let c = CheckedConfirm { verified: true, plain: Err("tag".to_string()) };
    let err = process_confirm_msg(&hex_payload, &c).unwrap_err();
    assert_eq!(err.message(), "decrypt peer addr: tag");
}

#[test]
fn process_confirm_msg_round_trip() {
    let hex_payload = to_hex_lower(&confirm("10.0.0.1:8080"));
    let parts = open_confirm(&hex_payload).unwrap();
    assert_eq!(parts.confirm, vec![3u8; 32]);
    let plain = parts.enc_addr[12..64].to_vec();
    let c = CheckedConfirm { verified: true, plain: Ok(plain) };
    assert_eq!(process_confirm_msg(&hex_payload, &c).unwrap(), "10.0.0.1:8080");
}

#[test]
fn confirm_payload_size_const() {
    assert_eq!(CONFIRM_PAYLOAD_SIZE, 16 + 32 + 12 + MAX_METADATA_SIZE + 16 + 32);
    assert_eq!(CONFIRM_PAYLOAD_SIZE, 160);
}

#[test]
fn metadata_padding_with_embedded_nulls() {
    let padded = pad_address("10.0.0.1:8080").unwrap();
    assert_eq!(padded.len(), MAX_METADATA_SIZE);
    assert_eq!(&padded[..13], b"10.0.0.1:8080");
    assert!(padded[13..].iter().all(|b| *b == 0));
    assert_eq!(address_of(&padded), "10.0.0.1:8080");
}

fn timing() -> Timing {
    let cfg = PeerConfig::default();
    let env = Env::new();
    Timing {
        exchange_deadline: cfg.exchange_deadline(&env),
        spake2_resend: cfg.spake2_resend(&env),
        confirm_resend: cfg.confirm_resend(&env),
        reg_interval: cfg.reg_interval(&env),
    }
}

fn session() -> Session {
    let start = Instant::from_millis(1000);
    Session::new("room", &point(1), &point(2), &[5; 32], "10.0.0.1:8080", timing(), start)
}

#[test]
fn register_and_exchange_context_cancellation() {
    let mut s = session();
    let err = s.due(true, Instant::from_millis(1000)).unwrap_err();
    assert!(matches!(err, ExchangeError::Cancelled));
}

#[test]
fn register_and_exchange_exchange_timeout() {
    let mut s = session();
    let late = Instant::from_millis(1000 + 10_000_000);
    let err = s.due(false, late).unwrap_err();
    assert!(matches!(err, ExchangeError::Timeout));
}

#[test]
fn register_and_exchange_spake2_payload_too_short() {
    let mut s = session();
    let r = s.receive(b"MSGD spake2 aabb\n");
    assert!(matches!(r, Received::ShortSpake), "{r:?}");
}

#[test]
fn register_and_exchange_confirm_before_spake2() {
    let mut s = session();
    let body = to_hex_lower(&confirm("10.0.0.2:9"));
    match s.receive(format!("MSGD confirm {body}\n").as_bytes()) {
        Received::Confirm { body: got } => {
            assert_eq!(got, body);
            assert!(s.judge_confirm(&vec![]).is_none());
        }
        other => panic!("{other:?}"),
    }
    assert_eq!(s.buffered.len(), 1);
    // The announcement comes, and the kept confirmation is tried again.
    let hex = to_hex_lower(&announcement(9, 8, 7));
    let now = Instant::from_millis(1100);
    match s.receive(format!("MSGD spake2 {hex}\n").as_bytes()) {
        Received::Spake { key, body, .. } => {
            assert_eq!(key, point(9));
            assert_eq!(body, hex);
            let msg = s.add_candidate(KEYS, vec![1, 2], now).unwrap();
            assert_eq!(msg, "MSG room confirm 0102\n");
        }
        other => panic!("{other:?}"),
    }
    let peer = s.judge_buffered(&vec![checked(true, "10.0.0.2:9")]).unwrap();
    assert_eq!(peer.peer_addr, "10.0.0.2:9");
    assert_eq!(peer.peer_fingerprint, vec![7u8; 32]);
    assert!(!peer.is_server);
}

#[test]
fn steps_of_a_session() {
    let mut s = session();
    let t0 = Instant::from_millis(1000);
    let msgs = s.due(false, t0).unwrap();
    assert!(msgs.iter().any(|m| m == "REG room\n"), "{msgs:?}");
    assert!(matches!(s.receive(b"REGD room 00112233445566778899aabbccddeeff\n"), Received::Challenged));
    let msgs = s.due(false, Instant::from_millis(1001)).unwrap();
    assert_eq!(msgs, vec!["REG room 00112233445566778899aabbccddeeff\n".to_string()]);
    assert!(matches!(s.receive(b"REGD room OK 1.2.3.4:5\n"), Received::Registered));
    assert!(s.registered);
    assert!(matches!(s.receive(b"HELLO\n"), Received::Nothing));
    assert_eq!(s.spake2_payload().len(), SPAKE2_PAYLOAD_LEN);
}

#[test]
fn announcements_are_judged() {
    let mut s = session();
    let own = to_hex_lower(&announcement(1, 2, 7));
    let r = s.receive(format!("MSGD spake2 {own}\n").as_bytes());
    assert!(matches!(r, Received::BadSpake(_)), "{r:?}");
    let hex = to_hex_lower(&announcement(9, 8, 7));
    let line = format!("MSGD spake2 {hex}\n");
    assert!(matches!(s.receive(line.as_bytes()), Received::Spake { .. }));
    assert!(s.add_candidate(KEYS, vec![0], Instant::from_millis(1)).is_some());
    assert!(matches!(s.receive(line.as_bytes()), Received::KnownPeer));
    let body = to_hex_lower(&confirm("10.0.0.2:9"));
    let line = format!("MSGD confirm {body}\n");
    assert!(matches!(s.receive(line.as_bytes()), Received::Confirm { .. }));
    assert!(s.judge_confirm(&vec![checked(false, "x")]).is_none());
    assert_eq!(s.buffered, vec![body]);
    // It was judged, and there is none to judge until one comes again.
    assert!(s.judge_confirm(&vec![checked(true, "10.0.0.2:9")]).is_none());
    assert_eq!(s.buffered.len(), 1);
    assert!(matches!(s.receive(line.as_bytes()), Received::Confirm { .. }));
    let peer = s.judge_confirm(&vec![checked(true, "10.0.0.2:9")]).unwrap();
    assert_eq!(peer.peer_addr, "10.0.0.2:9");
    assert_eq!(peer.peer_fingerprint, vec![7u8; 32]);
    assert_eq!(s.buffered.len(), 1);
}

#[test]
fn candidates_are_peers_that_announced_themselves() {
    let mut s = session();
    let now = Instant::from_millis(1100);
    assert!(s.add_candidate(KEYS, vec![0], now).is_none(), "nobody announced itself");
    let line = format!("MSGD spake2 {}\n", to_hex_lower(&announcement(9, 8, 7)));
    assert!(matches!(s.receive(line.as_bytes()), Received::Spake { .. }));
    assert!(matches!(s.receive(b"MSGD spake2 aabb\n"), Received::ShortSpake));
    assert!(s.add_candidate(KEYS, vec![0], now).is_none(), "something else came");
    assert!(matches!(s.receive(line.as_bytes()), Received::Spake { .. }));
    assert!(s.add_candidate(KEYS, vec![0], now).is_some());
    assert!(s.add_candidate(KEYS, vec![0], now).is_none(), "one announcement, one candidate");
    assert_eq!(s.candidates.len(), 1);
    let c = &s.candidates[0];
    assert_eq!(c.key, point(9));
    assert_eq!(c.spake.peer_fingerprint, vec![7u8; 32]);
    assert_eq!(c.spake.effective_my_point, point(1));
    assert_eq!(c.spake.effective_peer_point, point(8));
    assert_eq!(c.spake.confirm_key, KEYS.confirm_key);
    assert_eq!(c.spake.enc_key, KEYS.enc_key);
    assert!(!c.spake.is_server);
}

#[test]
fn confirmations_cover_the_fingerprint() {
    // The first peer has the certificate 6, the second one 7.
    let first = process_spake_msg(
        &to_hex_lower(&announcement(9, 8, 7)),
        &point(1),
        &point(2),
        Ok(KEYS),
    )
    .unwrap();
    let second = process_spake_msg(
        &to_hex_lower(&announcement(1, 2, 6)),
        &point(9),
        &point(8),
        Ok(KEYS),
    )
    .unwrap();
    let sent = confirm_to_send(&first, &[4; 16]);
    let checked = confirm_to_check(&second, &[4; 16], &[7; 32]);
    assert_eq!(sent.fingerprint, vec![7u8; 32]);
    assert_eq!(checked.fingerprint, vec![7u8; 32]);
    assert_eq!(sent.my_point, checked.peer_point);
    assert_eq!(sent.peer_point, checked.my_point);
    assert_eq!(sent.nonce, checked.nonce);
    assert_eq!(sent.confirm_key, checked.confirm_key);
    // A fingerprint that was replaced on the way is noticed.
    let forged = process_spake_msg(
        &to_hex_lower(&announcement(9, 8, 3)),
        &point(1),
        &point(2),
        Ok(KEYS),
    )
    .unwrap();
    assert_ne!(confirm_to_send(&forged, &[4; 16]).fingerprint, checked.fingerprint);
}

#[test]
fn settings_of_the_exchange() {
    let env = Env::new();
    let cfg = PeerConfig { punch_timeout: Some(Duration::from_millis(5)), ..Default::default() };
    assert_eq!(cfg.punch_timeout(&env), Duration::from_millis(5));
    let mut env = Env::new();
    env.set("QVOLE_PUNCH_TIMEOUT_MS", "77");
    env.set("QVOLE_EXCHANGE_DEADLINE_MS", "78");
    assert_eq!(PeerConfig::default().punch_timeout(&env), Duration::from_millis(77));
    assert_eq!(PeerConfig::default().exchange_deadline(&env), Duration::from_millis(78));
    assert_eq!(cfg.punch_timeout(&env), Duration::from_millis(5));
}

#[test]
fn error_texts() {
    assert_eq!(ExchangeError::Timeout.message(), "timeout exchanging with peer");
    assert_eq!(ExchangeError::Cancelled.message(), "context canceled");
    assert_eq!(ExchangeError::RelayRead("x".to_string()).message(), "relay read: x");
    assert_eq!(ExchangeError::Wire("x".to_string()).message(), "x");
}
