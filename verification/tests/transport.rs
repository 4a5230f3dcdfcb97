//! Pinned certificates and the set-up of a connection.
use qvole::cert::generate_self_signed_cert;
use qvole::clock::Duration;
use qvole::env::Env;
use qvole::exchange::PeerConfig;
use qvole::transport::{
    byte_varint, check_fingerprint, get_forward_max_streams, initial_connection_window,
    initial_stream_window, millis_varint, pinned_fingerprint, quic_transport_config,
    signature_verdict, verify_pinned_signature, PinnedClientVerifier, PinnedServerVerifier,
    TlsFault, ALPN, DEFAULT_FORWARD_MAX_STREAMS, DEFAULT_HANDSHAKE_TIMEOUT_MS,
    DEFAULT_INITIAL_CONNECTION_WINDOW, DEFAULT_INITIAL_STREAM_WINDOW,
    DEFAULT_KEEP_ALIVE_PERIOD_MS, DEFAULT_MAX_IDLE_TIMEOUT_MS, DEFAULT_MAX_INCOMING_STREAMS,
    ECDSA_NISTP256_SHA256,
};

#[test]
fn check_fingerprint_mismatch() {
    let cert = generate_self_signed_cert("other").unwrap();
    let mut wrong_fp = [0u8; 32];
    wrong_fp[0] = 0x01;
    let err = check_fingerprint(wrong_fp, &cert.der).unwrap_err();
    assert!(
        err.message().contains("peer certificate fingerprint mismatch"),
        "unexpected error text: {err:?}"
    );
}

#[test]
fn check_fingerprint_match() {
    let cert = generate_self_signed_cert("test").unwrap();
    let fp: [u8; 32] = cert.fingerprint;
    assert!(check_fingerprint(fp, &cert.der).is_ok());
}

#[test]
fn check_fingerprint_end_entity_only() {
    let cert1 = generate_self_signed_cert("first").unwrap();
    let cert2 = generate_self_signed_cert("second").unwrap();
    let fp1: [u8; 32] = cert1.fingerprint;
    assert!(check_fingerprint(fp1, &cert1.der).is_ok());
    assert!(
        check_fingerprint(fp1, &cert2.der).is_err(),
        "different end entity must fail the pin"
    );
}

#[test]
fn alpn_names_the_protocol() {
    assert_eq!(ALPN.as_bytes(), b"qvole-v0.1");
}

#[test]
fn tls_config_bad_fingerprint_length() {
    let err = pinned_fingerprint(&[0u8; 31]).unwrap_err();
    assert!(err.message().contains("bad peer fingerprint length"));
    let err = pinned_fingerprint(&[0u8; 33]).unwrap_err();
    assert!(err.message().contains("bad peer fingerprint length"));
    assert_eq!(pinned_fingerprint(&[7u8; 32]).unwrap(), [7u8; 32]);
}

#[test]
fn server_tls_config_requires_client_cert() {
    let verifier = PinnedClientVerifier::new([0u8; 32]);
    assert!(verifier.offer_client_auth());
    assert!(verifier.client_auth_mandatory());
}

#[test]
fn verifiers_go_by_the_pin() {
    let cert = generate_self_signed_cert("peer").unwrap();
    let server = PinnedServerVerifier::new(cert.fingerprint);
    let client = PinnedClientVerifier::new(cert.fingerprint);
    assert!(server.verify_server_cert(&cert.der).is_ok());
    assert!(client.verify_client_cert(&cert.der).is_ok());
    assert!(server.verify_server_cert(b"x").is_err());
    assert!(client.verify_client_cert(b"x").is_err());
    assert_eq!(server.supported_verify_schemes(), vec![ECDSA_NISTP256_SHA256]);
    assert_eq!(client.supported_verify_schemes(), vec![ECDSA_NISTP256_SHA256]);
}

#[test]
fn quic_config_defaults() {
    let cfg = PeerConfig::default();
    let env = Env::new();
    assert_eq!(cfg.max_streams(&env), DEFAULT_MAX_INCOMING_STREAMS);
    assert_eq!(cfg.keep_alive_period(&env), Duration::from_millis(DEFAULT_KEEP_ALIVE_PERIOD_MS));
    assert_eq!(cfg.idle_timeout(&env), Duration::from_millis(DEFAULT_MAX_IDLE_TIMEOUT_MS));
    assert_eq!(cfg.handshake_timeout(&env), Duration::from_millis(DEFAULT_HANDSHAKE_TIMEOUT_MS));
    assert_eq!(initial_stream_window(&env), DEFAULT_INITIAL_STREAM_WINDOW as u64);
    assert_eq!(initial_connection_window(&env), DEFAULT_INITIAL_CONNECTION_WINDOW as u64);
    let tc = quic_transport_config(&cfg, &env);
    assert_eq!(tc.max_bidi_streams, 100);
    assert_eq!(tc.max_uni_streams, 0);
    assert_eq!(tc.idle_timeout_ms, 120_000);
    assert_eq!(tc.stream_window, 1024 * 1024);
    assert_eq!(tc.connection_window, 4 * 1024 * 1024);
}

#[test]
fn varint_mappings() {
    // Durations are encoded in milliseconds (the QUIC unit for idle timeouts).
    assert_eq!(millis_varint(Duration::from_millis(DEFAULT_MAX_IDLE_TIMEOUT_MS)), 120_000);
    assert_eq!(byte_varint(DEFAULT_INITIAL_STREAM_WINDOW as u64), 1024 * 1024);
    assert_eq!(byte_varint(u64::MAX), u32::MAX);
    assert_eq!(millis_varint(Duration::from_millis(u64::from(u32::MAX) + 1)), u32::MAX);
}

#[test]
fn quic_config_overrides() {
    let cfg = PeerConfig {
        max_streams: Some(500),
        keep_alive_period: Some(Duration::from_millis(7000)),
        idle_timeout: Some(Duration::from_secs(60)),
        handshake_timeout: Some(Duration::from_secs(15)),
        ..Default::default()
    };
    let env = Env::new();
    assert_eq!(cfg.max_streams(&env), 500);
    assert_eq!(cfg.keep_alive_period(&env), Duration::from_millis(7000));
    assert_eq!(cfg.idle_timeout(&env), Duration::from_secs(60));
    assert_eq!(cfg.handshake_timeout(&env), Duration::from_secs(15));
    let tc = quic_transport_config(&cfg, &env);
    assert_eq!(tc.max_bidi_streams, 500);
    assert_eq!(tc.keep_alive, Duration::from_millis(7000));
    assert_eq!(tc.idle_timeout_ms, 60_000);
}

#[test]
fn quic_config_zero_falls_back() {
    let cfg = PeerConfig {
        keep_alive_period: Some(Duration::zero()),
        idle_timeout: Some(Duration::zero()),
        ..Default::default()
    };
    let env = Env::new();
    assert_eq!(cfg.keep_alive_period(&env), Duration::from_millis(DEFAULT_KEEP_ALIVE_PERIOD_MS));
    assert_eq!(cfg.idle_timeout(&env), Duration::from_millis(DEFAULT_MAX_IDLE_TIMEOUT_MS));
}

#[test]
fn get_forward_max_streams_default_and_override() {
    let env = Env::new();
    assert_eq!(get_forward_max_streams(None, &env), DEFAULT_FORWARD_MAX_STREAMS);
    assert_eq!(get_forward_max_streams(Some(0), &env), DEFAULT_FORWARD_MAX_STREAMS);
    assert_eq!(get_forward_max_streams(Some(50), &env), 50);
}

#[test]
fn windows_from_the_environment() {
    let mut env = Env::new();
    env.set("QVOLE_INITIAL_STREAM_WINDOW", "4096");
    env.set("QVOLE_INITIAL_CONNECTION_WINDOW", "99999999999");
    env.set("QVOLE_FORWARD_MAX_STREAMS", "3");
    env.set("QVOLE_MAX_STREAMS", "7");
    let tc = quic_transport_config(&PeerConfig::default(), &env);
    assert_eq!(tc.stream_window, 4096);
    assert_eq!(tc.connection_window, u32::MAX);
    assert_eq!(tc.max_bidi_streams, 7);
    assert_eq!(get_forward_max_streams(None, &env), 3);
}

#[test]
fn signatures_are_checked() {
    let cert = generate_self_signed_cert("signer").unwrap();
    let rng = ring::rand::SystemRandom::new();
    let key = ring::signature::EcdsaKeyPair::from_pkcs8(
        &ring::signature::ECDSA_P256_SHA256_ASN1_SIGNING,
        &cert.key,
        &rng,
    )
    .unwrap();
    let sig = key.sign(&rng, b"handshake").unwrap();
    let check = |message: &[u8], der: &[u8], scheme: u16| {
        verify_pinned_signature(message, der, scheme, sig.as_ref())
    };
    assert!(check(b"handshake", &cert.der, ECDSA_NISTP256_SHA256).is_ok());
    let err = check(b"handshakE", &cert.der, ECDSA_NISTP256_SHA256).unwrap_err();
    assert!(err.message().starts_with("peer certificate signature invalid: "));
    let err = check(b"handshake", &cert.der, 0x0804).unwrap_err();
    assert_eq!(err.message(), "unsupported signature scheme");
    let err = check(b"handshake", b"no certificate", ECDSA_NISTP256_SHA256).unwrap_err();
    assert_eq!(err.message(), "invalid peer certificate encoding");
}

#[test]
fn verdicts_on_signatures() {
    assert!(signature_verdict(ECDSA_NISTP256_SHA256, true, None).is_ok());
    let e = signature_verdict(ECDSA_NISTP256_SHA256, true, Some("bad".to_string())).unwrap_err();
    assert_eq!(e.message(), "peer certificate signature invalid: bad");
    let e = signature_verdict(ECDSA_NISTP256_SHA256, false, None).unwrap_err();
    assert!(matches!(e, TlsFault::InvalidEncoding));
    let e = signature_verdict(0, true, None).unwrap_err();
    assert!(matches!(e, TlsFault::UnsupportedScheme));
}
