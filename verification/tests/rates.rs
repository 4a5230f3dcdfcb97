use qvole::cert::generate_self_signed_cert;
use qvole::clock::{Duration, Instant};
use qvole::exchange::parse_spake;
use qvole::hex::to_hex_lower;
use qvole::room::{RateLimiter, RegShard};
use qvole::stdin_reader::{ReadStart, StdinBuffer};
use qvole::transport::{pinned_fingerprint, PinnedClientVerifier, PinnedServerVerifier};

const WINDOW_MS: u64 = 1000;

fn at(ms: u64) -> Instant {
    Instant::from_millis(ms)
}

#[test]
fn a_stretch_passes_at_most_two_budgets() {
    let window = Duration::from_millis(WINDOW_MS);
    let mut limiter = RateLimiter::new(at(0));
    let mut passed = 0;
    // The stretch from 900 ms to 1900 ms touches two windows.
    for ms in 900..=1900 {
        if !limiter.is_limited(at(ms), window, 3) {
            passed += 1;
        }
    }
    assert_eq!(passed, 6);
}

#[test]
fn a_stretch_passes_at_most_two_reg_budgets() {
    let window = Duration::from_millis(WINDOW_MS);
    let mut shard = RegShard::new();
    assert!(!shard.is_limited("a", at(0), window, 2));
    let mut passed = 0;
    for ms in 900..=1900 {
        shard.is_limited("b", at(ms), window, 2);
        if !shard.is_limited("a", at(ms), window, 2) {
            passed += 1;
        }
    }
    assert_eq!(passed, 3);
}

#[test]
fn a_window_always_has_its_first_registration() {
    let window = Duration::from_millis(WINDOW_MS);
    let mut shard = RegShard::new();
    assert!(!shard.is_limited("a", at(0), window, 0));
    assert!(shard.is_limited("a", at(1), window, 0));
}

#[test]
fn an_announced_certificate_is_accepted() {
    let mine = generate_self_signed_cert("qvole").unwrap();
    let other = generate_self_signed_cert("qvole").unwrap();
    let mut announcement = vec![4u8; 130];
    announcement.extend_from_slice(&mine.fingerprint);
    let role = parse_spake(&to_hex_lower(&announcement), &[3u8; 65], &[2u8; 65]).unwrap();
    let pin = pinned_fingerprint(&role.peer_fingerprint).unwrap();
    assert!(PinnedServerVerifier::new(pin).verify_server_cert(&mine.der).is_ok());
    assert!(PinnedClientVerifier::new(pin).verify_client_cert(&mine.der).is_ok());
    assert!(PinnedServerVerifier::new(pin).verify_server_cert(&other.der).is_err());
    assert!(PinnedClientVerifier::new(pin).verify_client_cert(&other.der).is_err());
}

#[test]
fn input_is_delivered_in_order() {
    let chunks: Vec<Vec<u8>> = vec![vec![1, 2, 3, 4, 5], vec![6], vec![7, 8, 9]];
    let mut incoming = chunks.clone().into_iter();
    let mut buffer = StdinBuffer::new();
    let mut got: Vec<u8> = Vec::new();
    loop {
        match buffer.start(2) {
            ReadStart::Deliver(bytes) => got.extend(bytes),
            ReadStart::End => break,
            ReadStart::Receive => got.extend(buffer.receive(incoming.next(), 2)),
        }
    }
    assert_eq!(got, chunks.concat());
}
