//! Options of the library.
use qvole::clock::Duration;
use qvole::exchange::PeerConfig;
use qvole::options::{
    resolve_options, to_peer_config, validate, with_allow_all, with_allow_forward,
    with_allow_listen, with_cmd_mode, with_code, with_command, with_exchange_deadline,
    with_forward_max_streams, with_handshake_timeout, with_idle_timeout, with_keep_alive,
    with_local_tunnel, with_max_streams, with_punch_timeout, with_relay, with_remote_tunnel,
    with_stream_idle_timeout, LibError,
};

#[test]
fn options_are_set_in_order() {
    let ms = Duration::from_millis;
    let o = resolve_options(&[
        with_code("first-code"),
        with_code("secret-code"),
        with_relay("r:9"),
        with_punch_timeout(ms(1)),
        with_exchange_deadline(ms(2)),
        with_keep_alive(ms(3)),
        with_idle_timeout(ms(4)),
        with_handshake_timeout(ms(5)),
        with_max_streams(6),
        with_forward_max_streams(7),
        with_stream_idle_timeout(ms(8)),
        with_command("ls"),
        with_cmd_mode(true),
        with_local_tunnel("1:a:2"),
        with_local_tunnel("3:b:4"),
        with_remote_tunnel("5:c:6"),
        with_allow_all(true),
        with_allow_listen(":1"),
        with_allow_forward(":2"),
    ]);
    assert_eq!(o.code, "secret-code");
    assert_eq!(o.relay, "r:9");
    assert_eq!(o.command, "ls");
    assert!(o.cmd_mode && o.allow_all);
    assert_eq!(o.local_tunnels, vec!["1:a:2", "3:b:4"]);
    assert_eq!(o.remote_tunnels, vec!["5:c:6"]);
    assert_eq!(o.allow_listen, vec![":1"]);
    assert_eq!(o.allow_forward, vec![":2"]);
    assert_eq!(o.stream_idle_timeout, ms(8));
    assert!(validate(&o).is_ok());
    let c = to_peer_config(&o);
    let want = PeerConfig {
        punch_timeout: Some(ms(1)),
        exchange_deadline: Some(ms(2)),
        keep_alive_period: Some(ms(3)),
        idle_timeout: Some(ms(4)),
        handshake_timeout: Some(ms(5)),
        max_streams: Some(6),
        forward_max_streams: Some(7),
        ..Default::default()
    };
    assert_eq!(c, want);
}

#[test]
fn what_is_not_set_stays_open() {
    let o = resolve_options(&[with_max_streams(-1)]);
    assert_eq!(to_peer_config(&o), PeerConfig::default());
}

#[test]
fn bad_options_are_refused() {
    let says = |opts: &[qvole::options::Choice]| match validate(&resolve_options(opts)).unwrap_err() {
        LibError::Validation(m) => m,
        other => panic!("{other:?}"),
    };
    assert_eq!(says(&[]), "code is required");
    assert_eq!(says(&[with_code("short")]), "code must be at least 8 characters");
    let long = "x".repeat(257);
    assert_eq!(says(&[with_code(&long)]), "code must be at most 256 characters");
    assert_eq!(says(&[with_code("long-enough")]), "relay is required");
    assert_eq!(LibError::Stream("s".to_string()).message(), "s");
}
