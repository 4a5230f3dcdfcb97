//! The parts of the relay: names, limits, links and the pending store.
use qvole::clock::{Duration, Instant};
use qvole::config::Config;
use qvole::env::Env;
use qvole::model::Source;
use qvole::net::{IpAddr, SocketAddr};
use qvole::relay::Relay;
use qvole::room::{
    fnv1a32, ip_key, is_valid_hex, shard_idx, trim_ascii_space, valid_room_name, DropLogLimiter,
    PendingReg, RateLimiter, RoomEntry, MAX_DATAGRAM_LEN, MAX_ROOM_NAME_LEN, NUM_REG_SHARDS,
    NUM_SHARDS, PENDING_COOKIE_BYTES, PENDING_REG_TTL_MS,
};

const NOW: u64 = 1_000_000;

fn at(ms: u64) -> Instant {
    Instant::from_millis(ms)
}

fn now() -> Instant {
    at(NOW)
}

fn relay() -> Relay {
    Relay::new(&Env::new())
}

fn named(text: &str) -> Source {
    Source {
        addr: SocketAddr::new(IpAddr::v4(127, 0, 0, 1), 1),
        text: text.to_string(),
        ip_text: "127.0.0.1".to_string(),
    }
}

#[test]
fn valid_room_name_valid() {
    let exact64 = "a".repeat(MAX_ROOM_NAME_LEN);
    for r in [
        "1234", "abcd", "room-42", "AZ", "\u{21}", // 33 '!'
        "\u{7e}", // 126 '~'
        &exact64,
    ] {
        assert!(valid_room_name(r.as_bytes()), "expected valid for {r:?}");
    }
}

#[test]
fn valid_room_name_too_long() {
    let room = "a".repeat(MAX_ROOM_NAME_LEN + 1);
    assert!(!valid_room_name(room.as_bytes()));
}

#[test]
fn valid_room_name_empty() {
    assert!(!valid_room_name(b""));
}

#[test]
fn valid_room_name_non_printable() {
    for r in [
        b"room\x00".as_slice(),
        b"test\x7f",
        b"abc\n",
        b"\troom",
        b"a\x1b",
        b"room with space",
    ] {
        assert!(!valid_room_name(r), "expected invalid for {r:?}");
    }
}

#[test]
fn valid_room_name_out_of_range() {
    assert!(!valid_room_name(&[31]));
    assert!(!valid_room_name(&[32])); // space excluded
    assert!(valid_room_name(&[33]));
    assert!(valid_room_name(&[126]));
    assert!(!valid_room_name(&[127]));
}

#[test]
fn is_valid_hex_valid() {
    for c in [
        "ff",
        "FF",
        "aAbB",
        "00",
        "deadbeef",
        "0123456789abcdefABCDEF",
    ] {
        assert!(is_valid_hex(c.as_bytes()), "expected valid hex: {c:?}");
    }
}

#[test]
fn is_valid_hex_invalid() {
    for c in ["", "f", "gg", "0x12", "hello", "abcg", "ff ", " ff"] {
        assert!(!is_valid_hex(c.as_bytes()), "expected invalid hex: {c:?}");
    }
}

#[test]
fn shard_for_deterministic() {
    for room in ["0000", "1234", "abcd", "room-42", ""] {
        let s1 = shard_idx(room, NUM_SHARDS);
        let s2 = shard_idx(room, NUM_SHARDS);
        assert_eq!(s1, s2, "shard_idx({room:?}) not deterministic");
        assert!(s1 < NUM_SHARDS);
    }
}

#[test]
fn hash_of_known_texts() {
    assert_eq!(fnv1a32(""), 0x811c9dc5);
    assert_eq!(fnv1a32("a"), 0xe40c292c);
    assert_eq!(fnv1a32("foobar"), 0xbf9cf968);
    assert_eq!(shard_idx("a", 16), 0xc);
}

#[test]
fn spaces_are_trimmed_at_both_ends() {
    assert_eq!(trim_ascii_space(b" \t x y\r\n"), b"x y");
    assert_eq!(trim_ascii_space(b" \n"), b"");
}

#[test]
fn total_rooms_zero() {
    assert_eq!(relay().total_rooms(), 0);
}

/// Eight groups of 16 bits as an address.
fn v6(g: [u16; 8]) -> IpAddr {
    let mut n: u128 = 0;
    for x in g {
        n = n << 16 | x as u128;
    }
    IpAddr::V6(n)
}

#[test]
fn ip_key_canonicalizes_ipv6() {
    let a = SocketAddr::new(v6([0x2001, 0xdb8, 0, 0, 0, 0, 0, 1]), 1234);
    let b = SocketAddr::new(IpAddr::V6(0x20010db8_00000000_00000000_00000001), 1234);
    let c = SocketAddr::new(
        IpAddr::V6(0x2001 << 112 | 0xdb8 << 96 | 1),
        1234,
    );
    assert_eq!(ip_key(a), ip_key(b), "ipv6 variant mismatch");
    assert_eq!(ip_key(b), ip_key(c), "ipv6 variant mismatch");
}

#[test]
fn ip_key_canonicalizes_ipv4_mapped_ipv6() {
    let v6 = SocketAddr::new(v6([0, 0, 0, 0, 0, 0xffff, 0x0102, 0x0304]), 5678);
    let v4 = SocketAddr::new(IpAddr::v4(1, 2, 3, 4), 5678);
    assert_eq!(ip_key(v6), ip_key(v4), "ipv4-mapped ipv6 not collapsed");
}

#[test]
fn ip_key_basic() {
    let a = SocketAddr::new(IpAddr::v4(1, 2, 3, 4), 5678);
    assert_eq!(ip_key(a), IpAddr::v4(1, 2, 3, 4));
    let b = SocketAddr::new(IpAddr::V6(1), 9009);
    assert_eq!(ip_key(b), IpAddr::V6(1));
}

#[test]
fn relay_constants() {
    let d = Config::defaults();
    assert_eq!(d.max_rooms, 10_000);
    assert_eq!(d.max_msg_rate, 10);
    assert_eq!(d.max_reg_rate, 10);
    assert_eq!(d.max_pending_global, 65_536);
    assert_eq!(MAX_DATAGRAM_LEN, 1400);
    assert_eq!(d.reg_ttl, Duration::from_secs(60));
    assert_eq!(d.reg_cleanup_interval, Duration::from_secs(60));
    assert_eq!(d.max_rooms_per_ip, 10);
    assert_eq!(NUM_REG_SHARDS, 16);
    assert_eq!(d.max_clients_hard, 20);
}

#[test]
fn msg_rate_limiter_under_limit() {
    let mut rl = RateLimiter::new(now());
    let w = Duration::from_secs(1);
    for i in 0..10 {
        assert!(!rl.is_limited(now(), w, 10), "rate limited at {i}, window max is 10");
    }
}

#[test]
fn msg_rate_limiter_over_limit() {
    let mut rl = RateLimiter::new(now());
    let w = Duration::from_secs(1);
    for _ in 0..10 {
        rl.is_limited(now(), w, 10);
    }
    assert!(rl.is_limited(now(), w, 10), "expected limited after exhausting window");
}

#[test]
fn msg_rate_limiter_window_reset() {
    let mut rl = RateLimiter::new(now());
    let w = Duration::from_secs(1);
    for _ in 0..10 {
        rl.is_limited(now(), w, 10);
    }
    rl.window_start = at(NOW - 2000);
    assert!(!rl.is_limited(now(), w, 10), "expected not limited after window reset");
}

#[test]
fn msg_rate_limiter_after_window_elapsed() {
    let mut rl = RateLimiter { msg_count: 0, window_start: at(NOW - 2000) };
    let w = Duration::from_secs(1);
    assert!(!rl.is_limited(now(), w, 10), "should not be limited after window elapsed");
    for _ in 0..10 {
        rl.is_limited(now(), w, 10);
    }
    assert!(rl.is_limited(now(), w, 10), "should be limited after exhausting fresh window");
}

#[test]
fn total_clients() {
    assert_eq!(relay().total_clients(), 0);
}

#[test]
fn reg_rate_limited_under_limit() {
    let mut relay = relay();
    for i in 0..10 {
        assert!(
            !relay.is_reg_rate_limited(&named("test-src"), now()),
            "limited at call {i}, max is 10"
        );
    }
}

#[test]
fn reg_rate_limited_over_limit() {
    let mut relay = relay();
    for _ in 0..10 {
        relay.is_reg_rate_limited(&named("test-src"), now());
    }
    assert!(relay.is_reg_rate_limited(&named("test-src"), now()), "expected reg rate limited");
}

#[test]
fn reg_rate_limited_separate_sources() {
    let mut relay = relay();
    for _ in 0..10 {
        relay.is_reg_rate_limited(&named("src-1"), now());
        assert!(
            !relay.is_reg_rate_limited(&named("src-2"), now()),
            "src2 limited after src1 activity"
        );
    }
}

#[test]
fn reg_rate_limited_window_reset() {
    let mut relay = relay();
    for _ in 0..10 {
        relay.is_reg_rate_limited(&named("test-src"), now());
    }
    assert!(relay.is_reg_rate_limited(&named("test-src"), now()), "expected rate limited");
    relay.set_reg_rate_time("test-src", at(NOW - 2000));
    assert!(
        !relay.is_reg_rate_limited(&named("test-src"), now()),
        "expected not limited after window reset"
    );
}

#[test]
fn reg_rate_limited_first_call() {
    assert!(
        !relay().is_reg_rate_limited(&named("new-src"), now()),
        "first call should not be limited"
    );
}

#[test]
fn reg_rate_limited_cleanup() {
    let mut relay = relay();
    let src = named("cleanup-test-src");
    for _ in 0..10 {
        relay.is_reg_rate_limited(&src, now());
    }
    assert!(relay.is_reg_rate_limited(&src, now()), "expected rate limited");
    relay.set_reg_rate_time("cleanup-test-src", at(NOW - 3000));
    let shard = shard_idx("cleanup-test-src", NUM_REG_SHARDS);
    relay.reg_shards[shard].cleanup_stale(now(), Duration::from_secs(2));
    assert!(!relay.is_reg_rate_limited(&src, now()), "expected not limited after cleanup");
}

#[test]
fn reg_rate_limited_separate_from_msg_rate() {
    // Lowering the MSG rate to 1 must not lower the default REG allowance (10).
    let mut relay1 = relay();
    relay1.set_max_msg_rate(1);
    for i in 0..10 {
        assert!(
            !relay1.is_reg_rate_limited(&named("decoupled-src"), now()),
            "REG limited at call {i} by the MSG rate"
        );
    }
    assert!(
        relay1.is_reg_rate_limited(&named("decoupled-src"), now()),
        "expected REG limit at the dedicated rate"
    );

    // A dedicated REG rate of 2 limits after two calls.
    let mut relay2 = relay();
    relay2.set_max_reg_rate(2);
    assert!(!relay2.is_reg_rate_limited(&named("k"), now()));
    assert!(!relay2.is_reg_rate_limited(&named("k"), now()));
    assert!(relay2.is_reg_rate_limited(&named("k"), now()));
}

#[test]
fn add_remove_ip_room() {
    let mut relay = relay();
    let ip = IpAddr::v4(10, 0, 0, 1);
    relay.links.add_ip_room(ip, "room-a");
    assert_eq!(relay.count_ip_rooms(ip), 1);
    relay.links.add_ip_room(ip, "room-b");
    assert_eq!(relay.count_ip_rooms(ip), 2);
    relay.links.add_ip_room(ip, "room-a");
    assert_eq!(relay.count_ip_rooms(ip), 2, "duplicate add must not double-count");
    relay.links.remove_ip_room(ip, "room-a");
    assert_eq!(relay.count_ip_rooms(ip), 1);
    relay.links.remove_ip_room(ip, "room-b");
    assert_eq!(relay.count_ip_rooms(ip), 0);
}

#[test]
fn remove_ip_room_nonexistent() {
    let mut relay = relay();
    let ip = IpAddr::v4(99, 99, 99, 99);
    relay.links.remove_ip_room(ip, "no-such-room");
    assert_eq!(relay.count_ip_rooms(ip), 0);
}

#[test]
fn pending_reg_cleanup() {
    let mut relay = relay();
    let room = "pending-cleanup-1";
    let src = SocketAddr::new(IpAddr::v4(1, 2, 3, 4), 5678);
    let mut cookie = [0x00u8; PENDING_COOKIE_BYTES];
    cookie[..4].copy_from_slice(&[0xde, 0xad, 0xbe, 0xef]);
    relay.pending.store_pending_reg(
        room,
        src,
        PendingReg {
            cookie,
            created_at: at(NOW - PENDING_REG_TTL_MS * 2),
            resolved_addr: src,
        },
        65_536,
    );
    assert!(
        relay.pending.get_pending_reg(room, src).is_some(),
        "pending registration should exist before cleanup"
    );
    relay.pending.remove_stale_pending_regs(now());
    assert!(
        relay.pending.get_pending_reg(room, src).is_none(),
        "stale pending registration should have been evicted"
    );
}

#[test]
fn pending_counts_stay_accurate() {
    let mut relay = relay();
    let a = SocketAddr::new(IpAddr::v4(10, 0, 0, 1), 1000);
    let b = SocketAddr::new(IpAddr::v4(10, 0, 0, 2), 2000);
    let mk = |ts: Instant, resolved: SocketAddr| PendingReg {
        cookie: [7u8; PENDING_COOKIE_BYTES],
        created_at: ts,
        resolved_addr: resolved,
    };
    let max = 65_536;

    assert!(relay.pending.store_pending_reg("r1", a, mk(now(), a), max));
    assert!(relay.pending.store_pending_reg("r2", a, mk(now(), a), max));
    assert!(relay.pending.store_pending_reg("r3", b, mk(now(), b), max));
    assert_eq!(relay.pending_total(), 3);
    assert_eq!(relay.pending_count_for_ip(ip_key(a)), 2);
    assert_eq!(relay.pending_count_for_ip(ip_key(b)), 1);

    // Replacing an existing key must not bump the counters.
    assert!(relay.pending.store_pending_reg("r1", a, mk(now(), a), max));
    assert_eq!(relay.pending_total(), 3);
    assert_eq!(relay.pending_count_for_ip(ip_key(a)), 2);

    // Delete one; deleting again must not underflow.
    relay.pending.delete_pending_reg("r1", a);
    relay.pending.delete_pending_reg("r1", a);
    assert_eq!(relay.pending_total(), 2);
    assert_eq!(relay.pending_count_for_ip(ip_key(a)), 1);

    // Stale eviction keeps both counters in sync.
    let old = at(NOW - PENDING_REG_TTL_MS * 2);
    assert!(relay.pending.store_pending_reg("r4", b, mk(old, b), max));
    relay.pending.remove_stale_pending_regs(now());
    assert_eq!(relay.pending_total(), 2, "stale global entry not counted out");
    assert_eq!(relay.pending_count_for_ip(ip_key(b)), 1, "b count mismatch");
    assert_eq!(relay.pending_count_for_ip(ip_key(a)), 1, "a count mismatch");

    // In-room pending counters.
    let mut entry = RoomEntry::new(now());
    entry.add_pending(a, mk(now(), a));
    entry.add_pending(a, mk(now(), a)); // replace, no double count
    assert_eq!(entry.pending_count_for_ip(ip_key(a)), 1);
    assert!(entry.remove_pending(a).is_some());
    assert_eq!(entry.pending_count_for_ip(ip_key(a)), 0);
    assert!(entry.remove_pending(a).is_none());
}

#[test]
fn drops_are_logged_once_per_interval() {
    let mut l = DropLogLimiter::new();
    let second = Duration::from_secs(1);
    assert!(l.allow("10.0.0.1", at(0), second));
    assert!(!l.allow("10.0.0.1", at(500), second));
    assert!(l.allow("10.0.0.2", at(500), second));
    assert!(l.allow("10.0.0.1", at(1500), second));
}

#[test]
fn configuration_from_the_environment() {
    let mut env = Env::new();
    env.set("QVOLE_RELAY_MAX_ROOMS", "77");
    let c = Config::from_env(&env);
    let d = Config::defaults();
    assert_eq!(c.max_rooms, 77);
    assert_eq!(c.reg_ttl, d.reg_ttl);
    assert_eq!(Config::from_env(&Env::new()), d);
}

#[test]
fn settings_stay() {
    let mut env = Env::new();
    env.set("QVOLE_RELAY_MAX_ROOMS", "17");
    let mut r = Relay::new(&env);
    let cfg = r.cfg;
    assert_eq!(cfg.max_rooms, 17);
    let limits = r.limits;
    r.handle_packet(b"REG room\n", &named("127.0.0.1:1"), now());
    r.handle_packet(b"MSG room spake2 aa\n", &named("127.0.0.1:1"), now());
    r.handle_packet(b"?", &named("127.0.0.1:1"), now());
    r.cleanup_rates(now());
    r.cleanup_rooms(now());
    assert_eq!(r.cfg, cfg);
    assert_eq!(r.limits, limits);
}
