//! Datagrams to the relay, and what it answers.
use qvole::clock::{Duration, Instant};
use qvole::env::Env;
use qvole::hex::to_hex_lower;
use qvole::model::{DropReason, Outcome, Source};
use qvole::net::{IpAddr, SocketAddr};
use qvole::relay::Relay;
use qvole::room::{shard_idx, UdpClient, MAX_DATAGRAM_LEN, NUM_SHARDS};

/// A relay, the time, and what was sent to whom.
struct World {
    relay: Relay,
    ms: u64,
    sent: Vec<(SocketAddr, String)>,
    port: u16,
}

fn ip_text(ip: IpAddr) -> String {
    match ip {
        IpAddr::V4(n) => {
            let b = n.to_be_bytes();
            format!("{}.{}.{}.{}", b[0], b[1], b[2], b[3])
        }
        IpAddr::V6(n) => format!("{n:x}"),
    }
}

fn source(addr: SocketAddr) -> Source {
    let ip = ip_text(addr.ip);
    Source { addr, text: format!("{}:{}", ip, addr.port), ip_text: ip }
}

impl World {
    fn new() -> World {
        World { relay: Relay::new(&Env::new()), ms: 1_000_000, sent: Vec::new(), port: 40_000 }
    }

    fn now(&self) -> Instant {
        Instant::from_millis(self.ms)
    }

    fn ago(&self, ms: u64) -> Instant {
        Instant::from_millis(self.ms - ms)
    }

    /// A client at 127.0.0.1, on a port of its own.
    fn client(&mut self) -> SocketAddr {
        self.port += 1;
        SocketAddr::new(IpAddr::v4(127, 0, 0, 1), self.port)
    }

    fn inject_bytes(&mut self, data: &[u8], src: SocketAddr) -> Outcome {
        let now = self.now();
        let o = self.relay.handle_packet(data, &source(src), now);
        for r in &o.replies {
            self.sent.push((r.to, r.text.clone()));
        }
        o
    }

    fn inject(&mut self, data: &str, src: SocketAddr) -> Outcome {
        self.inject_bytes(data.as_bytes(), src)
    }

    /// The next line for a client, without the end of the line.
    fn read_line(&mut self, to: SocketAddr) -> Option<String> {
        let i = self.sent.iter().position(|(a, _)| *a == to)?;
        Some(self.sent.remove(i).1.trim().to_string())
    }

    fn expect_no_line(&mut self, to: SocketAddr) {
        assert!(self.read_line(to).is_none(), "expected no response, but one arrived");
    }

    /// Asks for a cookie.
    fn challenge(&mut self, addr: SocketAddr, room: &str) -> String {
        self.inject(&format!("REG {room}\n"), addr);
        let line = self.read_line(addr).expect("REGD challenge");
        let expect = format!("REGD {room} ");
        assert!(line.starts_with(&expect), "expected REGD cookie challenge, got {line:?}");
        line[expect.len()..].to_string()
    }

    /// The two steps of a registration.
    fn register_client(&mut self, addr: SocketAddr, room: &str) {
        let cookie = self.challenge(addr, room);
        self.inject(&format!("REG {room} {cookie}\n"), addr);
        let line = self.read_line(addr).expect("REGD OK");
        assert!(
            line.starts_with(&format!("REGD {room} OK ")),
            "expected REGD OK confirmation, got {line:?}"
        );
    }

    fn has_client(&self, room: &str, addr: SocketAddr) -> bool {
        self.relay.get_client(room, addr).is_some()
    }

    fn insert_room_with_client(&mut self, room: &str, client: SocketAddr, seen: Instant, t: Instant) {
        self.relay.insert_room_for_test(room, t);
        let mut e = self.relay.rooms.take(room).expect("room");
        e.udp_clients.insert(client, UdpClient::new(seen, Some(client)));
        self.relay.rooms.put(room, e);
    }
}

#[test]
fn handle_packet_empty_data() {
    let mut w = World::new();
    let c = w.client();
    w.inject("", c);
    w.expect_no_line(c);
}

#[test]
fn handle_packet_too_large() {
    let mut w = World::new();
    let c = w.client();
    let o = w.inject_bytes(&vec![0u8; MAX_DATAGRAM_LEN + 1], c);
    assert_eq!(o.dropped, Some(DropReason::Oversized));
    w.expect_no_line(c);
}

#[test]
fn handle_packet_too_short() {
    let mut w = World::new();
    let c = w.client();
    w.inject("ab", c);
    w.expect_no_line(c);
}

#[test]
fn handle_packet_unknown_command() {
    let mut w = World::new();
    let c = w.client();
    let o = w.inject("UNKNOWN foo\n", c);
    assert_eq!(o.dropped, Some(DropReason::UnknownType));
    w.expect_no_line(c);
}

#[test]
fn handle_packet_non_prefix_command() {
    let mut w = World::new();
    let c = w.client();
    w.inject("PING room\n", c);
    w.expect_no_line(c);
    w.inject("GET / HTTP/1.1\n", c);
    w.expect_no_line(c);
}

#[test]
fn handle_reg_new_room() {
    let mut w = World::new();
    let c = w.client();
    w.register_client(c, "reg-new-1");
    assert!(w.relay.get_room_for_test("reg-new-1").is_some(), "room created");
    assert!(w.has_client("reg-new-1", c), "client not registered");
}

#[test]
fn handle_reg_empty_room() {
    let mut w = World::new();
    let c = w.client();
    let o = w.inject("REG  \n", c);
    assert_eq!(o.dropped, Some(DropReason::UnknownType), "nothing is left behind the name");
    w.expect_no_line(c);
}

#[test]
fn handle_reg_invalid_room_name() {
    let mut w = World::new();
    let c = w.client();
    let o = w.inject_bytes(b"REG room\x00bad\n", c);
    assert_eq!(o.dropped, Some(DropReason::InvalidRoom));
    w.expect_no_line(c);
}

#[test]
fn handle_reg_re_registration() {
    let mut w = World::new();
    let c = w.client();
    w.register_client(c, "reg-rereg-1");
    // Re-reg (no cookie): room exists, client already admitted -> REGD again.
    w.inject("REG reg-rereg-1\n", c);
    let resp = w.read_line(c).expect("REGD on re-reg");
    assert!(resp.starts_with("REGD reg-rereg-1 "), "expected REGD on re-reg, got {resp:?}");
}

#[test]
fn handle_reg_hard_cap() {
    let mut w = World::new();
    w.relay.set_max_clients_hard(3);
    for _ in 0..3 {
        let c = w.client();
        w.register_client(c, "reg-hard-cap-1");
    }
    let extra = w.client();
    w.inject("REG reg-hard-cap-1\n", extra);
    w.expect_no_line(extra);
}

#[test]
fn handle_reg_room_capacity_limit() {
    let mut w = World::new();
    let c = w.client();
    let max = w.relay.max_rooms_for_test();
    w.relay.set_total_rooms(max);
    // Initial REG still gets a cookie challenge (cap is checked at cookie
    // completion).
    let cookie = w.challenge(c, "reg-cap-limit-1");
    // Cookie completion must be rejected: room capacity is full and there is
    // nothing stale to evict.
    let o = w.inject(&format!("REG reg-cap-limit-1 {cookie}\n"), c);
    assert_eq!(o.dropped, Some(DropReason::MaxRooms));
    w.expect_no_line(c);
}

#[test]
fn handle_reg_pending_cap_existing_room() {
    let mut w = World::new();
    let c = w.client();
    w.register_client(c, "pending-cap-1");
    w.relay.set_max_pending_per_ip(3);
    // Flood the existing room with REGs from one IP, with another source
    // port each, so each lands as a fresh pending registration.
    for i in 0..5 {
        w.inject("REG pending-cap-1\n", SocketAddr::new(IpAddr::v4(127, 0, 0, 1), 30000 + i));
    }
    assert_eq!(
        w.relay.pending_count_in_room("pending-cap-1"),
        3,
        "per-IP pending cap not enforced"
    );
}

#[test]
fn handle_reg_concurrent_eviction() {
    let mut w = World::new();
    let c = w.client();
    w.register_client(c, "evict-race-1");
    for i in 0..20 {
        w.inject("REG evict-race-1\n", SocketAddr::new(IpAddr::v4(127, 0, 0, 1), 31000 + i));
        let now = w.now();
        w.relay.cleanup_rooms(now);
    }
    assert!(w.has_client("evict-race-1", c));
}

#[test]
fn handle_reg_per_ip_room_limit() {
    let mut w = World::new();
    w.relay.set_max_reg_rate(1000); // avoid the REG rate limiter tripping
    for i in 0..10 {
        let c = w.client();
        w.register_client(c, &format!("ip-limit-{i}-1"));
    }
    let extra = w.client();
    w.inject("REG ip-limit-extra-1\n", extra);
    w.expect_no_line(extra);
}

#[test]
fn pending_reg_does_not_create_room() {
    let mut w = World::new();
    let c = w.client();
    w.challenge(c, "pending-noroom-1");
    assert!(w.relay.get_room_for_test("pending-noroom-1").is_none(), "room must not exist yet");
    assert_eq!(w.relay.total_rooms(), 0, "totalRooms must not increase");
    assert!(
        w.relay.pending.get_pending_reg("pending-noroom-1", c).is_some(),
        "pending registration not found in store"
    );
}

#[test]
fn pending_reg_cookie_completion_creates_room() {
    let mut w = World::new();
    let c = w.client();
    w.register_client(c, "pending-create-1");
    assert!(w.has_client("pending-create-1", c), "client should be admitted");
    assert_eq!(w.relay.total_rooms(), 1);
    assert!(
        w.relay.pending.get_pending_reg("pending-create-1", c).is_none(),
        "pending registration should have been removed"
    );
}

#[test]
fn pending_reg_room_exhaustion() {
    let mut w = World::new();
    w.relay.set_max_rooms(10);
    w.relay.set_max_reg_rate(1000); // avoid the REG rate limiter tripping
    for i in 0..30 {
        let c = w.client();
        w.inject(&format!("REG exhaust-{i}-1\n"), c);
    }
    assert_eq!(w.relay.total_rooms(), 0, "rooms should not be created on initial REG");
}

#[test]
fn cookie_completion_rechecks_hard_cap() {
    let mut w = World::new();
    let room = "cookie-hardcap-1";
    w.relay.set_max_clients_hard(3);
    let c1 = w.client();
    w.register_client(c1, room);
    // Collect cookies for 3 more clients while the room is under the cap.
    let mut extras: Vec<(SocketAddr, String)> = Vec::new();
    for _ in 0..3 {
        let c = w.client();
        let cookie = w.challenge(c, room);
        extras.push((c, cookie));
    }
    // The first two fill the room; the third is rejected.
    let mut admitted = 0;
    for (c, cookie) in extras {
        w.inject(&format!("REG {room} {cookie}\n"), c);
        match w.read_line(c) {
            Some(line) if line.starts_with(&format!("REGD {room} OK ")) => admitted += 1,
            _ => {}
        }
    }
    assert_eq!(admitted, 2);
    assert_eq!(w.relay.client_count(room).unwrap(), 3);
}

#[test]
fn cookie_completion_rechecks_per_ip_cap() {
    let mut w = World::new();
    let c = w.client();
    w.relay.set_max_rooms_per_ip(2);
    let mut cookies: Vec<(String, String)> = Vec::new();
    for i in 0..3 {
        let room = format!("ipcap-{i}-1");
        let cookie = w.challenge(c, &room);
        cookies.push((room, cookie));
    }
    // Complete the first two; both succeed (IP count goes 0 -> 1 -> 2).
    for (room, cookie) in &cookies[..2] {
        w.inject(&format!("REG {room} {cookie}\n"), c);
        let line = w.read_line(c).expect("REGD OK");
        assert!(line.starts_with(&format!("REGD {room} OK ")), "expected REGD OK, got {line:?}");
    }
    // Complete the third; rejected because the IP is at its cap (2).
    let (room3, cookie3) = &cookies[2];
    w.inject(&format!("REG {room3} {cookie3}\n"), c);
    w.expect_no_line(c);
}

#[test]
fn cookie_completion_rechecks_per_ip_cap_existing_room() {
    let mut w = World::new();
    let a = w.client();
    w.relay.set_max_rooms_per_ip(2);
    let fake_ip = IpAddr::v4(10, 99, 99, 99);
    let b = SocketAddr::new(fake_ip, 4242);
    let (room_x, room_y, room_z) = ("ipcapx-1", "ipcapy-1", "ipcapz-1");

    // B asks for X, Y, Z (none exist yet).
    let mut cookies = Vec::new();
    for room in [room_x, room_y, room_z] {
        w.inject(&format!("REG {room}\n"), b);
        let p = w
            .relay
            .pending
            .get_pending_reg(room, b)
            .unwrap_or_else(|| panic!("room {room}: expected pending registration"));
        cookies.push(to_hex_lower(&p.cookie));
    }
    // Client A (127.0.0.1) creates room X via the pending store.
    w.register_client(a, room_x);
    // B completes Y and Z; both create rooms, putting B's IP at cap (2).
    for (i, room) in [room_y, room_z].into_iter().enumerate() {
        let cookie = cookies[i + 1].clone();
        w.inject(&format!("REG {room} {cookie}\n"), b);
        assert_eq!(w.relay.count_ip_rooms(fake_ip), i + 1, "after completing {room}");
    }
    // B completes X; room exists (created by A), B's IP is at cap and not in
    // the room, so it is rejected.
    w.inject(&format!("REG {room_x} {}\n", cookies[0]), b);
    assert_eq!(w.relay.count_ip_rooms(fake_ip), 2, "per-IP cap bypassed on rejected completion");
    assert!(!w.has_client(room_x, b), "B admitted despite per-IP cap");
    let n_clients = w.relay.client_count(room_x).expect("room X disappeared");

    // Room X must remain usable: client C (same IP as A, already in room X)
    // completes its cookie and is admitted.
    let c = w.client();
    w.register_client(c, room_x);
    assert_eq!(
        w.relay.client_count(room_x).unwrap(),
        n_clients + 1,
        "room X client count mismatch after C joined"
    );
}

#[test]
fn cookie_reg_unknown_room_rechallenged() {
    let mut w = World::new();
    let c = w.client();
    let room = "rechal-1";
    let cookie1 = w.challenge(c, room);
    // Evict the pending entry, as if its time were over.
    let later = Instant::from_millis(w.ms + 3_600_000);
    w.relay.pending.remove_stale_pending_regs(later);
    // Cookie REG for the now-unknown room must be re-challenged, not dropped.
    w.inject(&format!("REG {room} {cookie1}\n"), c);
    let line2 = w.read_line(c).expect("re-challenge");
    let expect = format!("REGD {room} ");
    assert!(line2.starts_with(&expect), "expected re-challenge, got {line2:?}");
    assert!(
        !line2.starts_with(&format!("REGD {room} OK ")),
        "expected a fresh cookie challenge, not admission"
    );
    let cookie2 = line2[expect.len()..].to_string();
    assert_ne!(cookie1, cookie2, "re-challenge must issue a fresh cookie");
    // Completing with the fresh cookie creates the room and admits the client.
    w.inject(&format!("REG {room} {cookie2}\n"), c);
    let line3 = w.read_line(c).expect("REGD OK");
    assert!(
        line3.starts_with(&format!("REGD {room} OK ")),
        "expected REGD OK after re-challenge, got {line3:?}"
    );
}

#[test]
fn pending_reg_per_ip_limit() {
    let mut w = World::new();
    w.relay.set_max_pending_per_ip(2);
    for i in 0..2 {
        let c = w.client();
        w.inject(&format!("REG pend-limit-{i}-1\n"), c);
    }
    let extra = w.client();
    w.inject("REG pend-limit-extra-1\n", extra);
    w.expect_no_line(extra);
}

#[test]
fn pending_store_global_cap() {
    let mut w = World::new();
    w.relay.set_max_pending_global(3);
    let c = w.client();
    // Three new rooms fit; each gets a challenge.
    for i in 0..3 {
        w.challenge(c, &format!("gcap-{i}-1"));
    }
    assert_eq!(w.relay.pending_total(), 3, "global pending count mismatch");
    // The fourth new room is dropped (no challenge) while the store is full.
    w.inject("REG gcap-full-1\n", c);
    w.expect_no_line(c);
    assert_eq!(w.relay.pending_total(), 3, "global cap exceeded");
}

#[test]
fn cookie_completion_evicts_stale_rooms_across_shards() {
    let mut w = World::new();
    let c = w.client();
    let target = "xshard-target-1";
    // Find a room name that hashes to a different shard than `target`.
    let mut stale_room = "xshard-stale-0".to_string();
    let mut i = 0;
    while shard_idx(&stale_room, NUM_SHARDS) == shard_idx(target, NUM_SHARDS) {
        i += 1;
        stale_room = format!("xshard-stale-{i}");
    }
    let stale = w.ago(120_000); // 2x reg TTL
    let old = SocketAddr::new(IpAddr::v4(10, 1, 1, 1), 5000);
    w.insert_room_with_client(&stale_room, old, stale, stale);
    w.relay.set_total_rooms(1); // the stale room is counted
    w.relay.set_max_rooms(1);
    let cookie = w.challenge(c, target);
    // Completion must evict the stale room in the other shard and create the
    // target rather than rejecting.
    w.inject(&format!("REG {target} {cookie}\n"), c);
    let line2 = w.read_line(c).expect("REGD OK");
    assert!(line2.starts_with(&format!("REGD {target} OK ")), "expected REGD OK, got {line2:?}");
    assert!(
        w.relay.get_room_for_test(&stale_room).is_none(),
        "stale room in another shard was not evicted"
    );
    assert!(w.relay.get_room_for_test(target).is_some(), "target room not created");
    assert_eq!(w.relay.total_rooms(), 1, "room count mismatch after sweep");
}

#[test]
fn cookie_completion_existing_room_evicts_stale_clients() {
    let mut w = World::new();
    w.relay.set_max_clients_hard(1);
    let b = SocketAddr::new(IpAddr::v4(10, 88, 88, 88), 4242);
    let room_x = "xroom-1";
    w.inject(&format!("REG {room_x}\n"), b);
    let p = w.relay.pending.get_pending_reg(room_x, b).expect("B pending registration");
    let cookie = to_hex_lower(&p.cookie);
    // A creates room X (1 client == the hard cap).
    let a = w.client();
    w.register_client(a, room_x);
    // Age A out; B's completion must evict A and admit B.
    let stale = w.ago(120_000);
    w.relay.touch_client_last_seen(room_x, a, stale);
    w.inject(&format!("REG {room_x} {cookie}\n"), b);
    assert!(w.has_client(room_x, b), "B not admitted after stale-client eviction");
    assert!(!w.has_client(room_x, a), "stale client A not evicted");
}

#[test]
fn cookie_completion_in_room_evicts_stale_clients() {
    let mut w = World::new();
    w.relay.set_max_clients_hard(2);
    let room = "inroom-stale-1";
    let a = w.client();
    w.register_client(a, room);
    // B gets an in-room challenge while the room is under the cap.
    let b = w.client();
    let cookie_b = w.challenge(b, room);
    // C fills the room to the hard cap.
    let c = w.client();
    w.register_client(c, room);
    assert_eq!(w.relay.client_count(room).unwrap(), 2);
    // Age both admitted clients out.
    let stale = w.ago(120_000);
    w.relay.touch_client_last_seen(room, a, stale);
    w.relay.touch_client_last_seen(room, c, stale);
    // B completes: stale clients must be evicted before the hard-cap check.
    w.inject(&format!("REG {room} {cookie_b}\n"), b);
    let line2 = w.read_line(b).expect("B REGD OK");
    assert!(line2.starts_with(&format!("REGD {room} OK ")), "expected B admission, got {line2:?}");
    assert_eq!(w.relay.client_count(room).unwrap(), 1);
}

fn pair(room: &str) -> (World, SocketAddr, SocketAddr) {
    let mut w = World::new();
    let a = w.client();
    let b = w.client();
    w.register_client(a, room);
    w.register_client(b, room);
    (w, a, b)
}

#[test]
fn handle_msg_forward_to_other_client() {
    let (mut w, a, b) = pair("msg-fwd-1");
    w.inject("MSG msg-fwd-1 spake2 deadbeef\n", a);
    assert_eq!(w.read_line(b).expect("MSGD"), "MSGD spake2 deadbeef");
}

#[test]
fn handle_msg_sender_does_not_receive_own_message() {
    let (mut w, a, _) = pair("msg-noecho-1");
    w.inject("MSG msg-noecho-1 confirm aabb\n", a);
    w.expect_no_line(a);
}

#[test]
fn handle_msg_broadcast_to_multiple_clients() {
    let (mut w, s, r1) = pair("msg-bcast3-1");
    let r2 = w.client();
    w.register_client(r2, "msg-bcast3-1");
    w.inject("MSG msg-bcast3-1 spake2 beef3c01\n", s);
    assert_eq!(w.read_line(r1).unwrap(), "MSGD spake2 beef3c01");
    assert_eq!(w.read_line(r2).unwrap(), "MSGD spake2 beef3c01");
    w.expect_no_line(s);
}

#[test]
fn remove_stale_clients_on_reg() {
    let room = "stale-reg-1";
    let (mut w, a, b) = pair(room);
    let c = w.client();
    // Age out client A (2x reg TTL).
    let stale = w.ago(120_000);
    w.relay.touch_client_last_seen(room, a, stale);
    // C's REG removes A.
    w.register_client(c, room);
    w.inject(&format!("MSG {room} spake2 deadbeef\n"), b);
    assert_eq!(w.read_line(c).expect("C MSGD"), "MSGD spake2 deadbeef");
    w.expect_no_line(a);
}

#[test]
fn re_reg_does_not_bump_room_ttl() {
    let mut w = World::new();
    let c = w.client();
    let room = "rereg-ttl-1";
    w.register_client(c, room);
    let orig_t = w.relay.room_t(room).expect("room t");
    w.ms += 10;
    w.inject(&format!("REG {room}\n"), c);
    let new_t = w.relay.room_t(room).expect("room t");
    assert_eq!(new_t, orig_t, "entry.t was bumped");
}

#[test]
fn handle_msg_invalid_format() {
    let mut w = World::new();
    let c = w.client();
    w.register_client(c, "msg-invalid-1");
    let o = w.inject("MSG msg-invalid-1\n", c);
    assert_eq!(o.dropped, Some(DropReason::MalformedMsg));
    w.expect_no_line(c);
}

#[test]
fn handle_msg_invalid_hex() {
    let mut w = World::new();
    let c = w.client();
    w.register_client(c, "msg-hex-1");
    let o = w.inject("MSG msg-hex-1 spake2 zzzz\n", c);
    assert_eq!(o.dropped, Some(DropReason::MsgInvalidBody));
    w.expect_no_line(c);
}

#[test]
fn handle_msg_rate_limiting() {
    let (mut w, a, b) = pair("msg-rate-1");
    for i in 0..10 {
        w.inject(&format!("MSG msg-rate-1 spake2 {i:02x}\n"), a);
        assert!(w.read_line(b).is_some());
    }
    let o = w.inject("MSG msg-rate-1 spake2 ff\n", a);
    assert_eq!(o.dropped, Some(DropReason::RateLimitedMsg));
    w.expect_no_line(b);
}

#[test]
fn handle_msg_unknown_room() {
    let mut w = World::new();
    let c = w.client();
    let o = w.inject("MSG unknown-room spake2 aabb\n", c);
    assert_eq!(o.dropped, Some(DropReason::MsgUnknownRoom));
    w.expect_no_line(c);
}

#[test]
fn handle_msg_unknown_sender() {
    let mut w = World::new();
    let c1 = w.client();
    let c2 = w.client();
    w.register_client(c1, "msg-unknown-sender-1");
    let o = w.inject("MSG msg-unknown-sender-1 spake2 aabb\n", c2);
    assert_eq!(o.dropped, Some(DropReason::MsgUnregistered));
    w.expect_no_line(c2);
}

#[test]
fn handle_msg_unknown_phase() {
    let (mut w, a, b) = pair("msg-unknown-phase-1");
    let o = w.inject("MSG msg-unknown-phase-1 badphase aabb\n", a);
    assert_eq!(o.dropped, Some(DropReason::MsgUnknownPhase));
    w.expect_no_line(b);
}

#[test]
fn handle_msg_known_phases_forwarded() {
    let (mut w, a, b) = pair("msg-known-phase-1");
    w.inject("MSG msg-known-phase-1 spake2 aabb\n", a);
    let msg = w.read_line(b).expect("MSGD spake2");
    assert!(msg.starts_with("MSGD spake2 "), "got {msg:?}");
    w.inject("MSG msg-known-phase-1 confirm aabb\n", a);
    let msg = w.read_line(b).expect("MSGD confirm");
    assert!(msg.starts_with("MSGD confirm "), "got {msg:?}");
}

#[test]
fn handle_msg_nil_resolved_addr() {
    let room = "msg-nil-addr-1";
    let (mut w, a, b) = pair(room);
    w.relay.set_client_resolved_addr(room, a, None);
    w.inject(&format!("MSG {room} spake2 deadbeef\n"), b);
    w.expect_no_line(a);
}

#[test]
fn stat_msgs_only_when_relayed() {
    let mut w = World::new();
    let c1 = w.client();
    let c2 = w.client();
    let room = "stat-msgs-1";
    w.register_client(c1, room);
    // Zero targets (sender is the only client): not counted as relayed.
    w.inject(&format!("MSG {room} spake2 aabb\n"), c1);
    assert_eq!(w.relay.stats().msgs, 0, "zero-target MSG counted");
    // A second client joins: the next MSG has one target and is counted.
    w.register_client(c2, room);
    w.inject(&format!("MSG {room} spake2 aabb\n"), c1);
    assert_eq!(w.relay.stats().msgs, 1, "relayed MSG not counted");
}

#[test]
fn handle_reg_no_queued_messages_on_join() {
    let mut w = World::new();
    let c1 = w.client();
    let c2 = w.client();
    let room = "reg-noqueue-1";
    // c1 is challenged (room not created), then sends a MSG that is dropped.
    w.challenge(c1, room);
    w.inject(&format!("MSG {room} spake2 aabb\n"), c1);
    w.inject(&format!("REG {room}\n"), c2);
    let reg_resp = w.read_line(c2).expect("REGD");
    assert!(reg_resp.starts_with("REGD "), "expected REGD, got {reg_resp:?}");
    w.expect_no_line(c2);
}

#[test]
fn handle_packet_concurrent_reg_and_msg() {
    let (mut w, a, b) = pair("concurrent-reg-msg-1");
    for i in 0..5u8 {
        w.inject(&format!("MSG concurrent-reg-msg-1 spake2 {i:02x}\n"), a);
        w.inject(&format!("MSG concurrent-reg-msg-1 confirm {i:02x}\n"), b);
    }
    let mut received = 0;
    while w.read_line(a).is_some() {
        received += 1;
    }
    while w.read_line(b).is_some() {
        received += 1;
    }
    assert_eq!(received, 10);
}

#[test]
fn evict_stale_rooms_direct_call() {
    let mut w = World::new();
    let stale = w.ago(120_000); // 2x reg TTL
    let addr = SocketAddr::new(IpAddr::v4(1, 2, 3, 4), 5678);
    w.insert_room_with_client("evict-direct-1", addr, stale, stale);
    w.relay.set_total_rooms(1);
    let now = w.now();
    w.relay.cleanup_rooms(now);
    assert!(w.relay.get_room_for_test("evict-direct-1").is_none(), "stale room not evicted");
    assert_eq!(w.relay.total_rooms(), 0, "totalRooms not decremented");
}

#[test]
fn cleanup_evicts_stale_rooms() {
    let mut w = World::new();
    let stale = w.ago(120_000); // 2x reg TTL
    let addr = SocketAddr::new(IpAddr::v4(127, 0, 0, 1), 12345);
    w.insert_room_with_client("cleanup-test-1", addr, stale, stale);
    w.relay.set_total_rooms(1);
    let now = w.now();
    w.relay.cleanup_rooms(now);
    assert!(w.relay.get_room_for_test("cleanup-test-1").is_none(), "stale room should be evicted");
}

#[test]
fn cleanup_keeps_active_rooms() {
    let mut w = World::new();
    let now = w.now();
    let addr = SocketAddr::new(IpAddr::v4(127, 0, 0, 1), 12345);
    w.insert_room_with_client("cleanup-active-1", addr, now, now);
    w.relay.cleanup_rooms(now);
    assert!(
        w.relay.get_room_for_test("cleanup-active-1").is_some(),
        "active room should not be evicted"
    );
}

#[test]
fn cleanup_live() {
    let mut w = World::new();
    w.relay.set_reg_ttl(Duration::from_millis(50));
    let stale = w.ago(100);
    let addr = SocketAddr::new(IpAddr::v4(1, 2, 3, 4), 5678);
    w.insert_room_with_client("cleanup-live-1", addr, stale, stale);
    w.relay.set_total_rooms(1);
    let now = w.now();
    w.relay.cleanup_rooms(now);
    assert!(
        w.relay.get_room_for_test("cleanup-live-1").is_none(),
        "stale room should be evicted by cleanup"
    );
}

#[test]
fn wrong_cookies_are_dropped() {
    let mut w = World::new();
    let c = w.client();
    w.challenge(c, "cookie-1");
    let o = w.inject("REG cookie-1 00000000000000000000000000000000\n", c);
    assert_eq!(o.dropped, Some(DropReason::MismatchedCookieInStore));
    let o = w.inject("REG cookie-1 zz\n", c);
    assert_eq!(o.dropped, Some(DropReason::InvalidCookie));
    let a = w.client();
    w.register_client(a, "cookie-2");
    let b = w.client();
    w.challenge(b, "cookie-2");
    let o = w.inject("REG cookie-2 00000000000000000000000000000000\n", b);
    assert_eq!(o.dropped, Some(DropReason::MismatchedCookieInRoom));
}

#[test]
fn too_many_regs_are_dropped() {
    let mut w = World::new();
    let c = w.client();
    for i in 0..10 {
        w.challenge(c, &format!("many-{i}"));
    }
    let o = w.inject("REG many-10\n", c);
    assert_eq!(o.dropped, Some(DropReason::RateLimitedReg));
    assert!(o.logged);
    w.ms += 2000;
    w.challenge(c, "many-10");
}

#[test]
fn counters_count_what_happened() {
    let (mut w, a, _) = pair("counters-1");
    w.inject("MSG counters-1 spake2 aabb\n", a);
    w.inject("UNKNOWN\n", a);
    let s = w.relay.stats();
    assert_eq!((s.regs, s.msgs, s.drops), (2, 1, 1));
    let text = w.relay.queue_full("1.2.3.4:5");
    assert_eq!(text, "Packet dropped from 1.2.3.4:5: worker channel full");
    assert_eq!(
        w.relay.stats_line(),
        "Stats: 1 rooms, 2 clients | 2 REGs, 1 MSGs relayed, 2 drops"
    );
}

#[test]
fn messages_stay_in_their_room() {
    let (mut w, a, b) = pair("room-one");
    let c = w.client();
    let d = w.client();
    w.register_client(c, "room-two");
    w.register_client(d, "room-two");
    w.inject("MSG room-one spake2 aabb\n", a);
    assert!(w.read_line(b).is_some());
    w.expect_no_line(c);
    w.expect_no_line(d);
    w.inject("MSG room-two spake2 aabb\n", a);
    w.expect_no_line(c);
}

#[test]
fn cookies_can_be_given_by_the_caller() {
    let mut w = World::new();
    let c = w.client();
    let now = w.now();
    let o = w.relay.handle_packet_with(b"REG given\n", &source(c), now, [0xab; 16]);
    assert_eq!(o.replies.len(), 1);
    assert_eq!(o.replies[0].text, format!("REGD given {}\n", "ab".repeat(16)));
    let cookie = "ab".repeat(16);
    let data = format!("REG given {cookie}\n");
    let o = w.relay.handle_packet_with(data.as_bytes(), &source(c), now, [0; 16]);
    assert_eq!(o.replies[0].text, format!("REGD given OK 127.0.0.1:{}\n", c.port));
    assert_eq!(o.replies[0].to, c);
}
