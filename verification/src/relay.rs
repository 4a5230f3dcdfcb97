//! The relay: registration of clients in rooms, with a cookie that shows that
//! a client can receive, and the passing on of messages between them.
use vstd::prelude::*;

use crate::clock::{Duration, Instant};
use crate::config::{Config, Limits};
use crate::hex::{hex_decode_bytes, to_hex_lower};
use crate::links::Links;
use crate::model::{DropReason, Effect, Outcome, RelayView, Reply, Source, SourceView, Stage, StatsSnapshot};
use crate::net::{IpAddr, SocketAddr};
use crate::packet::{ascii_string, parse_msg, parse_packet, Message, Packet, Phase};
use crate::pending::PendingStore;
use crate::random::random_bytes;
use crate::room::{
    ip_key, is_valid_hex, shard_idx, DropLogLimiter, PendingReg, RegAction, RegShard, RoomEntry, UdpClient,
    NUM_REG_SHARDS, NUM_SHARDS, PENDING_COOKIE_BYTES,
};
use crate::rooms::RoomTable;
use crate::seqs::same_bytes;

verus! {

/// Size of the buffer that a datagram is read into.
pub const READ_BUF_SIZE: usize = 1500;

/// Time between two cleanups of the rate-limit tables, in milliseconds.
pub const RATE_MAP_CLEANUP_INTERVAL_MS: u64 = 5_000;

/// Time in which at most one drop is logged for an IP, in milliseconds.
pub const DROP_LOG_INTERVAL_MS: u64 = 1_000;

/// A cookie of random bytes. Which one comes is chance.
fn random_cookie() -> [u8; PENDING_COOKIE_BYTES] {
    cookie_of(&random_bytes(PENDING_COOKIE_BYTES))
}

/// The cookie made of `v`.
fn cookie_of(v: &Vec<u8>) -> (c: [u8; PENDING_COOKIE_BYTES])
    requires
        v@.len() == PENDING_COOKIE_BYTES,
    ensures
        c@ == v@,
{
    let c: [u8; PENDING_COOKIE_BYTES] = [
        v[0],
        v[1],
        v[2],
        v[3],
        v[4],
        v[5],
        v[6],
        v[7],
        v[8],
        v[9],
        v[10],
        v[11],
        v[12],
        v[13],
        v[14],
        v[15],
    ];
    assert(c@ =~= v@);
    c
}

/// The relay.
pub struct Relay {
    pub cfg: Config,
    pub limits: Limits,
    pub rooms: RoomTable,
    pub reg_shards: Vec<RegShard>,
    pub links: Links,
    pub pending: PendingStore,
    pub drop_log_limiter: DropLogLimiter,
    pub total_room_count: usize,
    pub stats: StatsSnapshot,
}

impl View for Relay {
    type V = RelayView;

    open spec fn view(&self) -> RelayView {
        RelayView {
            cfg: self.cfg,
            limits: self.limits,
            rooms: self.rooms@,
            links: self.links@,
            pending: self.pending@,
            regs: Seq::new(self.reg_shards@.len(), |i: int| self.reg_shards@[i]@),
            drop_log: self.drop_log_limiter@,
            total_rooms: self.total_room_count,
            stats: self.stats,
        }
    }
}

/// `REGD <room> OK <src>`.
fn regd_message(room: &str, src: &str) -> (s: String)
    ensures
        s@ == crate::model::regd_text(room@, src@),
{
    let mut s = String::new();
    s.push_str("REGD ");
    s.push_str(room);
    s.push_str(" OK ");
    s.push_str(src);
    s.push_str("\n");
    assert(s@ =~= crate::model::regd_text(room@, src@));
    s
}

/// `REGD <room> <cookie>`.
fn challenge_message(room: &str, cookie: &[u8; PENDING_COOKIE_BYTES]) -> (s: String)
    ensures
        s@ == crate::model::challenge_text(room@, cookie@),
{
    let mut s = String::new();
    s.push_str("REGD ");
    s.push_str(room);
    s.push_str(" ");
    s.push_str(to_hex_lower(vstd::array::array_as_slice(cookie)).as_str());
    s.push_str("\n");
    assert(s@ =~= crate::model::challenge_text(room@, cookie@));
    s
}

/// `MSGD <phase> <body>`.
fn msgd_message(phase: Phase, body: &str, Ghost(b): Ghost<Seq<u8>>) -> (s: String)
    requires
        body@ == crate::packet::ascii_chars(b),
    ensures
        s@ == crate::model::msgd_text(phase, b),
{
    let mut s = String::new();
    s.push_str("MSGD ");
    s.push_str(phase.name());
    s.push_str(" ");
    s.push_str(body);
    s.push_str("\n");
    assert(s@ =~= crate::model::msgd_text(phase, b));
    s
}

/// Carries out the reply that a REG calls for.
fn reg_outcome(action: RegAction, room: &str, src: &Source) -> (o: Outcome)
    ensures
        o.dropped is None,
        !o.logged,
        o.evicted == 0,
        crate::model::delivers(o.replies@, crate::model::reg_answer(action, room@), src@),
{
    let mut replies: Vec<Reply> = Vec::new();
    match action {
        RegAction::Regd => {
            let text = regd_message(room, src.text.as_str());
            replies.push(Reply { to: src.addr, text });
        },
        RegAction::Challenge(cookie) => {
            let text = challenge_message(room, &cookie);
            replies.push(Reply { to: src.addr, text });
        },
        RegAction::Silent => {},
    }
    Outcome { replies, dropped: None, logged: false, evicted: 0 }
}

proof fn lemma_all_shards(
    m: Map<Seq<char>, crate::room::RoomView>,
    now: Instant,
    reg_ttl: Duration,
)
    ensures
        crate::rooms::swept_in(m, crate::model::all_shards(), now, reg_ttl)
            == crate::rooms::swept_rooms(m, now, reg_ttl),
        crate::rooms::ended_in(m, crate::model::all_shards(), now, reg_ttl)
            == crate::rooms::ended_links(m, now, reg_ttl),
{
    let all = crate::model::all_shards();
    assert(forall|r: Seq<char>| all.contains(#[trigger] crate::rooms::shard_of(r)));
    assert(crate::rooms::swept_in(m, all, now, reg_ttl) =~= crate::rooms::swept_rooms(
        m,
        now,
        reg_ttl,
    ));
    assert(crate::rooms::ended_in(m, all, now, reg_ttl) =~= crate::rooms::ended_links(
        m,
        now,
        reg_ttl,
    ));
}

impl Relay {
    /// Every table is well formed.
    pub open spec fn wf(&self) -> bool {
        &&& self.rooms.wf()
        &&& self.links.wf()
        &&& self.pending.wf()
        &&& self.drop_log_limiter.wf()
        &&& self.reg_shards@.len() == NUM_REG_SHARDS
        &&& forall|i: int| 0 <= i < self.reg_shards@.len() ==> (#[trigger] self.reg_shards@[i]).wf()
    }

    /// The relay and the outcome are what `e` describes.
    pub open spec fn achieves(&self, e: Effect, o: Outcome, src: SourceView) -> bool {
        &&& self.wf()
        &&& self@ == e.state
        &&& o.dropped == e.dropped
        &&& o.logged == e.logged
        &&& o.evicted == e.evicted
        &&& crate::model::delivers(o.replies@, e.answer, src)
    }

    /// A relay with the given configuration and no rooms.
    pub fn with_config(cfg: Config) -> (r: Self)
        ensures
            r.wf(),
            r@ == (RelayView {
                cfg,
                limits: Limits::of(cfg),
                rooms: Map::empty(),
                links: Set::empty(),
                pending: Map::empty(),
                regs: Seq::new(
                    NUM_REG_SHARDS as nat,
                    |i: int|
                        crate::room::RegShardView { sent: Map::empty(), times: Map::empty() },
                ),
                drop_log: Map::empty(),
                total_rooms: 0,
                stats: StatsSnapshot { regs: 0, msgs: 0, drops: 0 },
            }),
    {
        let mut reg_shards: Vec<RegShard> = Vec::new();
        let mut i: usize = 0;
        while i < NUM_REG_SHARDS
            invariant
                i <= NUM_REG_SHARDS,
                reg_shards@.len() == i,
                forall|j: int|
                    0 <= j < i ==> (#[trigger] reg_shards@[j]).wf() && reg_shards@[j]@ == (
                    crate::room::RegShardView { sent: Map::empty(), times: Map::empty() }),
            decreases NUM_REG_SHARDS - i,
        {
            reg_shards.push(RegShard::new());
            i = i + 1;
        }
        let r = Relay {
            cfg,
            limits: Limits::from_config(&cfg),
            rooms: RoomTable::new(),
            reg_shards,
            links: Links::new(),
            pending: PendingStore::new(),
            drop_log_limiter: DropLogLimiter::new(),
            total_room_count: 0,
            stats: StatsSnapshot { regs: 0, msgs: 0, drops: 0 },
        };
        assert(r@.regs =~= Seq::new(
            NUM_REG_SHARDS as nat,
            |i: int| crate::room::RegShardView { sent: Map::empty(), times: Map::empty() },
        ));
        r
    }

    /// Counts a drop, and asks whether to log it.
    pub fn drop_packet(&mut self, src: &Source, now: Instant, reason: DropReason) -> (o: Outcome)
        requires
            old(self).wf(),
        ensures
            final(self).achieves(old(self)@.drop_packet(src@, now, reason), o, src@),
    {
        self.stats.drops = self.stats.drops.wrapping_add(1);
        let logged = self.drop_log_limiter.allow(
            src.ip_text.as_str(),
            now,
            Duration::from_millis(DROP_LOG_INTERVAL_MS),
        );
        assert(self@ =~= old(self)@.drop_packet(src@, now, reason).state);
        let mut o = reg_outcome(RegAction::Silent, "", src);
        o.dropped = Some(reason);
        o.logged = logged;
        o
    }

    /// Spends one REG of the source's budget; true when it is used up.
    pub fn is_reg_rate_limited(&mut self, src: &Source, now: Instant) -> (b: bool)
        requires
            old(self).wf(),
        ensures
            final(self).wf(),
            b == old(self)@.reg_limited(src@, now),
            final(self)@ == old(self)@.spend_reg(src@, now),
    {
        let i: usize = shard_idx(src.text.as_str(), NUM_REG_SHARDS);
        let ghost before = *self;
        let b = self.reg_shards[i].is_limited(
            src.text.as_str(),
            now,
            self.limits.rate_window(),
            self.limits.max_reg_rate as u32,
        );
        proof {
            assert(self.reg_shards@ =~= before.reg_shards@.update(
                i as int,
                self.reg_shards@[i as int],
            ));
            assert(self@.regs =~= before@.spend_reg(src@, now).regs);
            assert(self@ =~= before@.spend_reg(src@, now));
        }
        b
    }

    /// Challenges the sender of a REG for a room that does not exist.
    fn challenge(
        &mut self,
        room: &str,
        src: &Source,
        now: Instant,
        fresh: [u8; PENDING_COOKIE_BYTES],
    ) -> (o: Outcome)
        requires
            old(self).wf(),
        ensures
            final(self).achieves(old(self)@.challenge(room@, src@, now, fresh), o, src@),
    {
        let ip = ip_key(src.addr);
        if self.links.count_ip_rooms(ip) >= self.limits.max_rooms_per_ip {
            return self.drop_packet(src, now, DropReason::RoomLimitPerIp(Stage::Request));
        }
        if self.pending.pending_count_for_ip(ip) >= self.limits.max_pending_per_ip {
            return self.drop_packet(src, now, DropReason::PendingLimitPerIp);
        }
        let p = PendingReg { cookie: fresh, created_at: now, resolved_addr: src.addr };
        let stored = self.pending.store_pending_reg(
            room,
            src.addr,
            p,
            self.limits.max_pending_global,
        );
        if !stored {
            assert(self@ =~= old(self)@);
            return self.drop_packet(src, now, DropReason::PendingStoreFull);
        }
        assert(self@ =~= old(self)@.challenge(room@, src@, now, fresh).state);
        reg_outcome(RegAction::Challenge(fresh), room, src)
    }

    /// Takes out a room after a sweep of it. The links of the clients that go
    /// are ended.
    fn take_swept(&mut self, room: &str, now: Instant) -> (e: RoomEntry)
        requires
            old(self).wf(),
            old(self)@.rooms.contains_key(room@),
        ensures
            final(self).wf(),
            e.wf(),
            ({
                let s = old(self)@.sweep_room(room@, now);
                &&& e@ == s.rooms[room@]
                &&& final(self)@ == (RelayView { rooms: old(self)@.rooms.remove(room@), ..s })
            }),
    {
        let ghost before = self@;
        let ttl = self.limits.reg_ttl();
        match self.rooms.take(room) {
            Some(taken) => {
                let mut e = taken;
                let ghost r = e@;
                let ended = e.remove_stale_clients(room, now, ttl);
                self.links.remove_all(&ended);
                proof {
                    let l1 = crate::rooms::links_of(ended@);
                    let l2 = crate::model::ended_in_room(room@, r, now, ttl);
                    let ips = crate::room::ips_of(ended@);
                    assert forall|l: (IpAddr, Seq<char>)| l1.contains(l) == l2.contains(l) by {
                        if crate::rooms::has_link(ended@, l) {
                            let i = choose|i: int|
                                0 <= i < ended@.len() && (#[trigger] ended@[i]).0 == l.0
                                    && ended@[i].1@ == l.1;
                            assert(ips[i] == l.0);
                            assert(ips.to_set().contains(l.0));
                        }
                        if l2.contains(l) {
                            let i = ips.index_of(l.0);
                            assert(ips[i] == l.0);
                            assert(ended@[i].0 == l.0);
                        }
                    }
                    assert(l1 =~= l2);
                    assert(self@ =~= RelayView {
                        rooms: before.rooms.remove(room@),
                        ..before.sweep_room(room@, now)
                    });
                }
                e
            },
            None => {
                assert(false);
                RoomEntry::new(now)
            },
        }
    }

    /// Handles a REG without a cookie for a room that exists.
    fn join(
        &mut self,
        room: &str,
        src: &Source,
        now: Instant,
        fresh: [u8; PENDING_COOKIE_BYTES],
    ) -> (o: Outcome)
        requires
            old(self).wf(),
            old(self)@.rooms.contains_key(room@),
        ensures
            final(self).achieves(old(self)@.join(room@, src@, now, fresh), o, src@),
    {
        let ghost before = self@;
        let ghost s = before.sweep_room(room@, now);
        let ghost goal = before.join(room@, src@, now, fresh).state;
        let ip = ip_key(src.addr);
        let mut e = self.take_swept(room, now);
        let known: Option<UdpClient> = match e.udp_clients.get(&src.addr) {
            Some(c) => Some(*c),
            None => None,
        };
        if e.udp_clients.len() >= self.limits.max_clients_hard && known.is_none() {
            self.rooms.put(room, e);
            assert(self@ =~= s);
            return self.drop_packet(src, now, DropReason::HardCap(Stage::Request));
        }
        if let Some(c) = known {
            e.udp_clients.insert(
                src.addr,
                UdpClient {
                    last_seen: now,
                    rate_limiter: c.rate_limiter,
                    resolved_addr: Some(src.addr),
                },
            );
            self.rooms.put(room, e);
            self.stats.regs = self.stats.regs.wrapping_add(1);
            assert(self@ =~= goal);
            return reg_outcome(RegAction::Regd, room, src);
        }
        let waiting: Option<PendingReg> = match e.pending.get(&src.addr) {
            Some(p) => Some(*p),
            None => None,
        };
        if let Some(p) = waiting {
            let cookie = p.cookie;
            e.replace_pending(
                src.addr,
                PendingReg { cookie, created_at: now, resolved_addr: src.addr },
            );
            self.rooms.put(room, e);
            assert(self@ =~= goal);
            return reg_outcome(RegAction::Challenge(cookie), room, src);
        }
        let outside: usize = self.pending.pending_count_for_ip(ip);
        let inside: usize = e.pending_count_for_ip(ip);
        if outside as u128 + inside as u128 >= self.limits.max_pending_per_ip as u128 {
            self.rooms.put(room, e);
            assert(self@ =~= s);
            return self.drop_packet(src, now, DropReason::PendingLimitPerIp);
        }
        e.add_pending(
            src.addr,
            PendingReg { cookie: fresh, created_at: now, resolved_addr: src.addr },
        );
        self.rooms.put(room, e);
        assert(self@ =~= goal);
        reg_outcome(RegAction::Challenge(fresh), room, src)
    }

    /// Handles a REG without a cookie.
    fn initial_reg(
        &mut self,
        room: &str,
        src: &Source,
        now: Instant,
        fresh: [u8; PENDING_COOKIE_BYTES],
    ) -> (o: Outcome)
        requires
            old(self).wf(),
        ensures
            final(self).achieves(old(self)@.initial_reg(room@, src@, now, fresh), o, src@),
    {
        if self.is_reg_rate_limited(src, now) {
            return self.drop_packet(src, now, DropReason::RateLimitedReg);
        }
        if self.links.count_ip_rooms(ip_key(src.addr)) >= self.limits.max_rooms_per_ip {
            return self.drop_packet(src, now, DropReason::RoomLimitPerIp(Stage::Request));
        }
        if self.rooms.get(room).is_some() {
            self.join(room, src, now, fresh)
        } else {
            self.challenge(room, src, now, fresh)
        }
    }

    /// Admits a client to a room that exists, within the limits.
    fn enter(
        &mut self,
        room: &str,
        src: &Source,
        now: Instant,
        resolved: SocketAddr,
        in_room: bool,
    ) -> (o: Outcome)
        requires
            old(self).wf(),
            old(self)@.rooms.contains_key(room@),
        ensures
            final(self).achieves(
                old(self)@.enter(room@, src@, now, resolved, in_room),
                o,
                src@,
            ),
    {
        let ghost before = self@;
        let ghost s = before.sweep_room(room@, now);
        let ghost goal = before.enter(room@, src@, now, resolved, in_room).state;
        let stage = if in_room {
            Stage::Admission
        } else {
            Stage::Completion
        };
        let ip = ip_key(src.addr);
        let mut e = self.take_swept(room, now);
        let known = e.udp_clients.contains_key(&src.addr);
        let present = e.has_ip(ip, None);
        let linked = if in_room {
            e.has_ip(ip, Some(src.addr))
        } else {
            present
        };
        if e.udp_clients.len() >= self.limits.max_clients_hard && !known {
            self.rooms.put(room, e);
            assert(self@ =~= s);
            return self.drop_packet(src, now, DropReason::HardCap(stage));
        }
        if !present && self.links.count_ip_rooms(ip) >= self.limits.max_rooms_per_ip {
            self.rooms.put(room, e);
            assert(self@ =~= s);
            return self.drop_packet(src, now, DropReason::RoomLimitPerIp(stage));
        }
        if in_room {
            e.remove_pending(src.addr);
        }
        e.udp_clients.insert(src.addr, UdpClient::new(now, Some(resolved)));
        e.t = now;
        self.rooms.put(room, e);
        if !linked {
            self.links.add_ip_room(ip, room);
        }
        self.stats.regs = self.stats.regs.wrapping_add(1);
        assert(self@ =~= goal);
        reg_outcome(RegAction::Regd, room, src)
    }

    /// Sweeps the rooms of all shards; returns how many rooms were evicted.
    pub fn evict_stale_rooms_all(&mut self, now: Instant) -> (n: usize)
        requires
            old(self).wf(),
        ensures
            final(self).wf(),
            final(self)@ == old(self)@.sweep_shards(crate::model::all_shards(), now),
            n == old(self)@.evicted_in(crate::model::all_shards(), now),
    {
        let ghost before = self@;
        let ttl = self.limits.reg_ttl();
        proof {
            lemma_all_shards(before.rooms, now, ttl);
        }
        let (n, ended) = self.rooms.evict_all(now, ttl);
        self.links.remove_all(&ended);
        self.total_room_count = self.total_room_count.wrapping_sub(n);
        assert(self@ =~= before.sweep_shards(crate::model::all_shards(), now));
        n
    }

    /// Sweeps the rooms of the shard of `room`.
    fn evict_own_shard(&mut self, room: &str, now: Instant) -> (n: usize)
        requires
            old(self).wf(),
        ensures
            final(self).wf(),
            final(self)@ == old(self)@.sweep_shards(set![crate::rooms::shard_of(room@)], now),
            n == old(self)@.evicted_in(set![crate::rooms::shard_of(room@)], now),
    {
        let ghost before = self@;
        let ttl = self.limits.reg_ttl();
        let i: usize = shard_idx(room, NUM_SHARDS);
        let (n, ended) = self.rooms.evict_shard(i, now, ttl);
        proof {
            vstd::arithmetic::div_mod::lemma_small_mod(n as nat, (usize::MAX + 1) as nat);
        }
        self.links.remove_all(&ended);
        self.total_room_count = self.total_room_count.wrapping_sub(n);
        assert(self@ =~= before.sweep_shards(set![crate::rooms::shard_of(room@)], now));
        n
    }

    /// Creates a room for its first client, within the limits.
    fn create(&mut self, room: &str, src: &Source, now: Instant, resolved: SocketAddr) -> (o:
        Outcome)
        requires
            old(self).wf(),
        ensures
            final(self).achieves(old(self)@.create(room@, src@, now, resolved), o, src@),
    {
        let ip = ip_key(src.addr);
        if self.total_room_count >= self.limits.max_rooms {
            return self.drop_packet(src, now, DropReason::MaxRooms);
        }
        if self.links.count_ip_rooms(ip) >= self.limits.max_rooms_per_ip {
            return self.drop_packet(src, now, DropReason::RoomLimitPerIp(Stage::Completion));
        }
        let mut e = RoomEntry::new(now);
        e.udp_clients.insert(src.addr, UdpClient::new(now, Some(resolved)));
        self.rooms.put(room, e);
        self.total_room_count = self.total_room_count.wrapping_add(1);
        self.links.add_ip_room(ip, room);
        self.stats.regs = self.stats.regs.wrapping_add(1);
        assert(self@ =~= old(self)@.create(room@, src@, now, resolved).state);
        reg_outcome(RegAction::Regd, room, src)
    }

    /// Admits the sender of a cookie that the store knew, creating the room if
    /// it does not exist.
    fn reg_cookie_create_or_admit(
        &mut self,
        room: &str,
        src: &Source,
        now: Instant,
        resolved: SocketAddr,
    ) -> (o: Outcome)
        requires
            old(self).wf(),
        ensures
            final(self).achieves(old(self)@.complete(room@, src@, now, resolved), o, src@),
    {
        let mut n: usize = 0;
        if self.total_room_count >= self.limits.max_rooms {
            n = self.evict_stale_rooms_all(now);
        }
        if self.rooms.get(room).is_some() {
            let mut o = self.enter(room, src, now, resolved, false);
            o.evicted = n;
            o
        } else {
            let mut n2: usize = 0;
            if self.total_room_count >= self.limits.max_rooms {
                n2 = self.evict_own_shard(room, now);
            }
            let mut o = self.create(room, src, now, resolved);
            o.evicted = n.wrapping_add(n2);
            o
        }
    }

    /// Handles a REG that sends a cookie back.
    fn cookie_reg(
        &mut self,
        room: &str,
        cookie: &[u8],
        src: &Source,
        now: Instant,
        fresh: [u8; PENDING_COOKIE_BYTES],
    ) -> (o: Outcome)
        requires
            old(self).wf(),
            cookie@.len() > 0,
        ensures
            final(self).achieves(
                old(self)@.cookie_reg(room@, cookie@, src@, now, fresh),
                o,
                src@,
            ),
    {
        if !is_valid_hex(cookie) || cookie.len() != PENDING_COOKIE_BYTES * 2 {
            return self.drop_packet(src, now, DropReason::InvalidCookie);
        }
        let bytes: Vec<u8> = match hex_decode_bytes(cookie) {
            Some(b) => b,
            None => {
                return self.drop_packet(src, now, DropReason::InvalidCookie);
            },
        };
        if let Some(pend) = self.pending.get_pending_reg(room, src.addr) {
            if !same_bytes(vstd::array::array_as_slice(&pend.cookie), bytes.as_slice()) {
                return self.drop_packet(src, now, DropReason::MismatchedCookieInStore);
            }
            self.pending.delete_pending_reg(room, src.addr);
            assert(self@ =~= RelayView {
                pending: old(self)@.pending.remove((room@, src.addr)),
                ..old(self)@
            });
            return self.reg_cookie_create_or_admit(room, src, now, pend.resolved_addr);
        }
        let waiting: Option<PendingReg> = match self.rooms.get(room) {
            None => {
                if self.is_reg_rate_limited(src, now) {
                    return self.drop_packet(src, now, DropReason::RateLimitedReg);
                }
                return self.challenge(room, src, now, fresh);
            },
            Some(e) => match e.pending.get(&src.addr) {
                Some(p) => Some(*p),
                None => None,
            },
        };
        match waiting {
            Some(p) => {
                if same_bytes(vstd::array::array_as_slice(&p.cookie), bytes.as_slice()) {
                    self.enter(room, src, now, p.resolved_addr, true)
                } else {
                    self.drop_packet(src, now, DropReason::MismatchedCookieInRoom)
                }
            },
            None => self.drop_packet(src, now, DropReason::MismatchedCookieInRoom),
        }
    }

    /// Handles a REG. A new registration gets the cookie `fresh`.
    pub fn handle_reg(
        &mut self,
        room: &str,
        cookie: &[u8],
        src: &Source,
        now: Instant,
        fresh: [u8; PENDING_COOKIE_BYTES],
    ) -> (o: Outcome)
        requires
            old(self).wf(),
        ensures
            final(self).achieves(
                old(self)@.handle_reg(room@, cookie@, src@, now, fresh),
                o,
                src@,
            ),
    {
        if cookie.len() == 0 {
            self.initial_reg(room, src, now, fresh)
        } else {
            self.cookie_reg(room, cookie, src, now, fresh)
        }
    }

    /// Handles a valid message.
    fn relay_msg(
        &mut self,
        room: &str,
        phase: Phase,
        body: &str,
        Ghost(b): Ghost<Seq<u8>>,
        src: &Source,
        now: Instant,
    ) -> (o: Outcome)
        requires
            old(self).wf(),
            body@ == crate::packet::ascii_chars(b),
        ensures
            final(self).achieves(old(self)@.relay_msg(room@, phase, b, src@, now), o, src@),
    {
        let ghost before = self@;
        let ghost goal = before.relay_msg(room@, phase, b, src@, now);
        let known: Option<UdpClient> = match self.rooms.get(room) {
            None => {
                return self.drop_packet(src, now, DropReason::MsgUnknownRoom);
            },
            Some(e) => match e.udp_clients.get(&src.addr) {
                Some(c) => Some(*c),
                None => None,
            },
        };
        let client: UdpClient = match known {
            None => {
                return self.drop_packet(src, now, DropReason::MsgUnregistered);
            },
            Some(c) => c,
        };
        let mut lim = client.rate_limiter;
        let limited = lim.is_limited(
            now,
            self.limits.rate_window(),
            self.limits.max_msg_rate as u32,
        );
        let mut e = match self.rooms.take(room) {
            Some(e) => e,
            None => {
                assert(false);
                RoomEntry::new(now)
            },
        };
        let ghost r = e@;
        e.udp_clients.insert(
            src.addr,
            UdpClient {
                last_seen: client.last_seen,
                rate_limiter: lim,
                resolved_addr: client.resolved_addr,
            },
        );
        let ghost clients = e@.clients;
        let text = msgd_message(phase, body, Ghost(b));
        let replies = e.fan_out(src.addr, text.as_str());
        self.rooms.put(room, e);
        let ghost after = RelayView {
            rooms: before.rooms.insert(room@, crate::room::RoomView { clients, ..r }),
            ..before
        };
        assert(self@ =~= after);
        if limited {
            return self.drop_packet(src, now, DropReason::RateLimitedMsg);
        }
        let ghost targets = crate::model::other_targets(clients, src.addr);
        proof {
            crate::model::lemma_fan_out_empty(replies@, targets, text@);
        }
        if replies.len() > 0 {
            self.stats.msgs = self.stats.msgs.wrapping_add(1);
        }
        assert(self@ =~= goal.state);
        Outcome { replies, dropped: None, logged: false, evicted: 0 }
    }

    /// Handles what follows `MSG `.
    pub fn handle_msg(&mut self, payload: &[u8], src: &Source, now: Instant) -> (o: Outcome)
        requires
            old(self).wf(),
        ensures
            final(self).achieves(old(self)@.handle_msg(payload@, src@, now), o, src@),
    {
        match parse_msg(payload) {
            Message::Malformed => self.drop_packet(src, now, DropReason::MalformedMsg),
            Message::UnknownPhase { room: _, name: _ } => self.drop_packet(
                src,
                now,
                DropReason::MsgUnknownPhase,
            ),
            Message::InvalidRoom { room: _ } => self.drop_packet(
                src,
                now,
                DropReason::MsgInvalidRoom,
            ),
            Message::InvalidBody { room: _ } => self.drop_packet(
                src,
                now,
                DropReason::MsgInvalidBody,
            ),
            Message::Valid { room, phase, body } => {
                assert(forall|i: int| 0 <= i < room@.len() ==> crate::room::is_room_byte(
                    #[trigger] room@[i],
                ));
                assert(forall|i: int| 0 <= i < body@.len() ==> crate::room::is_hex_digit(
                    #[trigger] body@[i],
                ));
                let room_text = ascii_string(room);
                let body_text = ascii_string(body);
                self.relay_msg(
                    room_text.as_str(),
                    phase,
                    body_text.as_str(),
                    Ghost(body@),
                    src,
                    now,
                )
            },
        }
    }

    /// Handles a datagram. A new registration gets the cookie `fresh`.
    pub fn handle_packet_with(
        &mut self,
        data: &[u8],
        src: &Source,
        now: Instant,
        fresh: [u8; PENDING_COOKIE_BYTES],
    ) -> (o: Outcome)
        requires
            old(self).wf(),
        ensures
            final(self).achieves(old(self)@.handle_packet(data@, src@, now, fresh), o, src@),
    {
        match parse_packet(data) {
            Packet::Oversized => self.drop_packet(src, now, DropReason::Oversized),
            Packet::EmptyRoom => self.drop_packet(src, now, DropReason::EmptyRoom),
            Packet::InvalidRoom(_) => self.drop_packet(src, now, DropReason::InvalidRoom),
            Packet::Reg { room, cookie } => {
                assert(forall|i: int| 0 <= i < room@.len() ==> crate::room::is_room_byte(
                    #[trigger] room@[i],
                ));
                let room_text = ascii_string(room);
                self.handle_reg(room_text.as_str(), cookie, src, now, fresh)
            },
            Packet::Msg(payload) => self.handle_msg(payload, src, now),
            Packet::Unknown(_) => self.drop_packet(src, now, DropReason::UnknownType),
        }
    }

    /// Handles a datagram. A new registration gets a random cookie.
    pub fn handle_packet(&mut self, data: &[u8], src: &Source, now: Instant) -> (o: Outcome)
        requires
            old(self).wf(),
        ensures
            exists|fresh: [u8; PENDING_COOKIE_BYTES]|
                final(self).achieves(
                    #[trigger] old(self)@.handle_packet(data@, src@, now, fresh),
                    o,
                    src@,
                ),
    {
        let fresh = match parse_packet(data) {
            Packet::Reg { room: _, cookie: _ } => random_cookie(),
            _ => [0u8; PENDING_COOKIE_BYTES],
        };
        self.handle_packet_with(data, src, now, fresh)
    }
}

} // verus!
