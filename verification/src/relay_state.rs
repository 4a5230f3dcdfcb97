//! Looking into a relay, keeping it clean, and setting it up by hand.
use vstd::prelude::*;

use crate::clock::{Duration, Instant};
use crate::config::Config;
use crate::env::Env;
use crate::model::{RelayView, StatsSnapshot};
use crate::net::{IpAddr, SocketAddr};
use crate::number::{decimal, spec_decimal};
use crate::relay::{Relay, DROP_LOG_INTERVAL_MS};
use crate::room::{shard_idx, RoomEntry, RoomView, UdpClient, NUM_REG_SHARDS, NUM_SHARDS};
use crate::rooms::RoomTable;
use crate::table::Table;
use crate::text::join2;

verus! {

/// The clients of all rooms, each with its room.
pub open spec fn all_clients(m: Map<Seq<char>, RoomView>) -> Set<(Seq<char>, SocketAddr)> {
    Set::new(
        |k: (Seq<char>, SocketAddr)| m.contains_key(k.0) && m[k.0].clients.contains_key(k.1),
    )
}

/// The clients of the first `i` rooms of a list, each with its room.
spec fn clients_before(es: Seq<(String, RoomEntry)>, i: int) -> Set<(Seq<char>, SocketAddr)> {
    Set::new(|k: (Seq<char>, SocketAddr)| client_before(es, i, k))
}

spec fn client_before(es: Seq<(String, RoomEntry)>, i: int, k: (Seq<char>, SocketAddr)) -> bool {
    exists|j: int| 0 <= j < i && (#[trigger] es[j]).0@ == k.0 && es[j].1@.clients.contains_key(k.1)
}

proof fn lemma_clients_step(es: Seq<(String, RoomEntry)>, i: int)
    requires
        0 <= i < es.len(),
        crate::table::keys_of(es).no_duplicates(),
        clients_before(es, i).finite(),
        es[i].1@.clients.dom().finite(),
    ensures
        clients_before(es, i + 1).finite(),
        clients_before(es, i + 1).len() == clients_before(es, i).len()
            + es[i].1@.clients.dom().len(),
{
    let name = es[i].0@;
    let d = es[i].1@.clients.dom();
    let f = |a: SocketAddr| (name, a);
    let q = d.map(f);
    assert forall|k: (Seq<char>, SocketAddr)| q.contains(k) == (k.0 == name && d.contains(k.1)) by {
        if k.0 == name && d.contains(k.1) {
            assert(f(k.1) == k);
        }
    }
    assert forall|a: SocketAddr| d.contains(a) implies q.contains(#[trigger] f(a)) by {}
    vstd::set_lib::lemma_map_size(d, q, f);
    let p = clients_before(es, i);
    let n = clients_before(es, i + 1);
    assert forall|k: (Seq<char>, SocketAddr)| n.contains(k) == p.union(q).contains(k) by {
        if client_before(es, i + 1, k) {
            let j = choose|j: int|
                0 <= j < i + 1 && (#[trigger] es[j]).0@ == k.0 && es[j].1@.clients.contains_key(
                    k.1,
                );
            if j < i {
                assert(es[j].0@ == k.0);
                assert(client_before(es, i, k));
            }
        }
        if client_before(es, i, k) {
            let j = choose|j: int|
                0 <= j < i && (#[trigger] es[j]).0@ == k.0 && es[j].1@.clients.contains_key(k.1);
            assert(es[j].0@ == k.0);
        }
        if q.contains(k) {
            assert(es[i].0@ == k.0);
        }
    }
    assert(n =~= p.union(q));
    assert forall|k: (Seq<char>, SocketAddr)| !(p.contains(k) && q.contains(k)) by {
        if p.contains(k) && q.contains(k) {
            let j = choose|j: int|
                0 <= j < i && (#[trigger] es[j]).0@ == k.0 && es[j].1@.clients.contains_key(k.1);
            assert(crate::table::keys_of(es)[j] == crate::table::keys_of(es)[i]);
        }
    }
    assert(p.disjoint(q));
    vstd::set_lib::lemma_set_disjoint_lens(p, q);
}

/// The sum of a number and one more, each taken modulo the range of `usize`.
proof fn lemma_wrapping_sum(total: nat, n: usize)
    ensures
        ((total % (usize::MAX + 1) as nat) as usize).wrapping_add(n) == (total + n) % (usize::MAX
            + 1),
{
    let size = usize::MAX + 1;
    vstd::arithmetic::div_mod::lemma_add_mod_noop(total as int, n as int, size);
    vstd::arithmetic::div_mod::lemma_small_mod(n as nat, size as nat);
}

/// Number of clients in the rooms of one shard, modulo the range of `usize`.
fn count_clients(t: &Table<String, RoomEntry>) -> (n: usize)
    requires
        crate::rooms::rooms_wf(*t),
    ensures
        clients_before(t.entries@, t.entries@.len() as int).finite(),
        n == clients_before(t.entries@, t.entries@.len() as int).len() % (usize::MAX + 1) as nat,
{
    let ghost es = t.entries@;
    let mut n: usize = 0;
    let mut i: usize = 0;
    proof {
        assert(clients_before(es, 0) =~= Set::empty());
        vstd::arithmetic::div_mod::lemma_small_mod(0, (usize::MAX + 1) as nat);
    }
    while i < t.entries.len()
        invariant
            crate::rooms::rooms_wf(*t),
            es == t.entries@,
            i <= es.len(),
            clients_before(es, i as int).finite(),
            n == clients_before(es, i as int).len() % (usize::MAX + 1) as nat,
        decreases es.len() - i,
    {
        assert(es[i as int].1.wf());
        let k: usize = t.entries[i].1.udp_clients.len();
        proof {
            lemma_clients_step(es, i as int);
            lemma_wrapping_sum(clients_before(es, i as int).len(), k);
        }
        n = n.wrapping_add(k);
        i = i + 1;
    }
    n
}

/// The clients of the rooms in the first `i` shards.
spec fn clients_in_shards(m: Map<Seq<char>, RoomView>, i: int) -> Set<(Seq<char>, SocketAddr)> {
    all_clients(m).filter(|k: (Seq<char>, SocketAddr)| crate::rooms::shard_of(k.0) < i)
}

impl RoomTable {
    /// Number of clients in all rooms, modulo the range of `usize`.
    pub fn total_clients(&self) -> (n: usize)
        requires
            self.wf(),
        ensures
            all_clients(self@).finite(),
            n == all_clients(self@).len() % (usize::MAX + 1) as nat,
    {
        let ghost m = self@;
        let mut n: usize = 0;
        let mut i: usize = 0;
        proof {
            assert(clients_in_shards(m, 0) =~= Set::empty());
            vstd::arithmetic::div_mod::lemma_small_mod(0, (usize::MAX + 1) as nat);
        }
        while i < NUM_SHARDS
            invariant
                self.wf(),
                m == self@,
                i <= NUM_SHARDS,
                clients_in_shards(m, i as int).finite(),
                n == clients_in_shards(m, i as int).len() % (usize::MAX + 1) as nat,
            decreases NUM_SHARDS - i,
        {
            assert(crate::rooms::rooms_wf(self.shards@[i as int]));
            let k: usize = count_clients(&self.shards[i]);
            proof {
                let t = self.shards@[i as int];
                let es = t.entries@;
                let q = clients_before(es, es.len() as int);
                let p = clients_in_shards(m, i as int);
                let u = clients_in_shards(m, i + 1);
                assert forall|x: (Seq<char>, SocketAddr)| q.contains(x) == (all_clients(m).contains(
                    x,
                ) && crate::rooms::shard_of(x.0) == i) by {
                    if client_before(es, es.len() as int, x) {
                        let j = choose|j: int|
                            0 <= j < es.len() && (#[trigger] es[j]).0@ == x.0
                                && es[j].1@.clients.contains_key(x.1);
                        crate::table::lemma_entry(es, j);
                        assert(t@.contains_key(x.0));
                    }
                    if all_clients(m).contains(x) && crate::rooms::shard_of(x.0) == i {
                        let j = crate::table::keys_of(es).index_of(x.0);
                        assert(crate::table::keys_of(es)[j] == x.0);
                        crate::table::lemma_entry(es, j);
                        assert(es[j].0@ == x.0);
                    }
                }
                assert(u =~= p.union(q));
                assert(p.disjoint(q));
                vstd::set_lib::lemma_set_disjoint_lens(p, q);
                let size = (usize::MAX + 1) as nat;
                vstd::arithmetic::div_mod::lemma_add_mod_noop(
                    p.len() as int,
                    q.len() as int,
                    size as int,
                );
                vstd::arithmetic::div_mod::lemma_mod_bound(q.len() as int, size as int);
            }
            n = n.wrapping_add(k);
            i = i + 1;
        }
        assert(clients_in_shards(m, i as int) =~= all_clients(m));
        n
    }
}

/// What a cleanup of the rate-limit tables leaves.
pub open spec fn rates_cleaned(s: RelayView, now: Instant) -> RelayView {
    let max_age = Duration { nanos: (2 * s.limits.spec_rate_window().nanos) as u128 };
    let log_age = crate::clock::spec_from_millis(2 * DROP_LOG_INTERVAL_MS as nat);
    RelayView {
        regs: s.regs.map_values(|r: crate::room::RegShardView| r.cleaned(now, max_age)),
        drop_log: Map::new(
            |ip: Seq<char>|
                s.drop_log.contains_key(ip) && crate::clock::elapsed(now, s.drop_log[ip])
                    <= log_age.nanos,
            |ip: Seq<char>| s.drop_log[ip],
        ),
        ..s
    }
}

/// What a cleanup of the rooms leaves.
pub open spec fn rooms_cleaned(s: RelayView, now: Instant) -> RelayView {
    RelayView {
        pending: crate::pending::live(s.pending, now),
        ..s.sweep_shards(crate::model::all_shards(), now)
    }
}

impl Relay {
    /// A relay configured by the `QVOLE_RELAY_*` variables of `env`.
    pub fn new(env: &Env) -> (r: Self)
        requires
            env.wf(),
        ensures
            r.wf(),
            r@ == (RelayView {
                cfg: crate::config::spec_config(env@),
                limits: crate::config::Limits::of(crate::config::spec_config(env@)),
                rooms: Map::empty(),
                links: Set::empty(),
                pending: Map::empty(),
                regs: Seq::new(
                    NUM_REG_SHARDS as nat,
                    |i: int|
                        crate::room::RegShardView { sent: Map::empty(), times: Map::empty() },
                ),
                drop_log: Map::empty(),
                total_rooms: 0,
                stats: StatsSnapshot { regs: 0, msgs: 0, drops: 0 },
            }),
    {
        Relay::with_config(Config::from_env(env))
    }

    /// Number of rooms.
    pub fn total_rooms(&self) -> (n: usize)
        ensures
            n == self@.total_rooms,
    {
        self.total_room_count
    }

    /// Number of clients in all rooms, modulo the range of `usize`.
    pub fn total_clients(&self) -> (n: usize)
        requires
            self.wf(),
        ensures
            all_clients(self@.rooms).finite(),
            n == all_clients(self@.rooms).len() % (usize::MAX + 1) as nat,
    {
        self.rooms.total_clients()
    }

    pub fn stats(&self) -> (s: StatsSnapshot)
        ensures
            s == self@.stats,
    {
        self.stats
    }

    /// Number of rooms that an IP takes part in.
    pub fn count_ip_rooms(&self, ip: IpAddr) -> (n: usize)
        requires
            self.wf(),
        ensures
            n == self@.ip_rooms(ip),
    {
        self.links.count_ip_rooms(ip)
    }

    /// Number of registrations from before a room that an IP has.
    pub fn pending_count_for_ip(&self, ip: IpAddr) -> (n: usize)
        requires
            self.wf(),
        ensures
            n == crate::pending::count_pending(self@.pending.dom(), ip),
    {
        self.pending.pending_count_for_ip(ip)
    }

    /// Number of registrations from before a room.
    pub fn pending_total(&self) -> (n: usize)
        requires
            self.wf(),
        ensures
            n == self@.pending.dom().len(),
    {
        self.pending.total
    }

    /// Forgets rate-limit entries that have become meaningless.
    pub fn cleanup_rates(&mut self, now: Instant)
        requires
            old(self).wf(),
        ensures
            final(self).wf(),
            final(self)@ == rates_cleaned(old(self)@, now),
    {
        let ghost before = *self;
        let window = self.limits.rate_window();
        let max_age = Duration { nanos: window.nanos * 2 };
        let mut i: usize = 0;
        while i < NUM_REG_SHARDS
            invariant
                self.wf(),
                i <= NUM_REG_SHARDS,
                before.wf(),
                self@ == (RelayView { regs: self@.regs, ..before@ }),
                self.drop_log_limiter == before.drop_log_limiter,
                forall|j: int|
                    0 <= j < i ==> (#[trigger] self.reg_shards@[j])@
                        == before.reg_shards@[j]@.cleaned(now, max_age),
                forall|j: int|
                    i <= j < NUM_REG_SHARDS ==> #[trigger] self.reg_shards@[j]
                        == before.reg_shards@[j],
            decreases NUM_REG_SHARDS - i,
        {
            let ghost s0 = self.reg_shards@;
            assert(s0[i as int].wf());
            self.reg_shards[i].cleanup_stale(now, max_age);
            assert(self.reg_shards@ =~= s0.update(i as int, self.reg_shards@[i as int]));
            i = i + 1;
        }
        self.drop_log_limiter.cleanup_stale(
            now,
            Duration::from_millis(DROP_LOG_INTERVAL_MS * 2),
        );
        proof {
            assert(self@.regs =~= rates_cleaned(before@, now).regs);
            assert(self@ =~= rates_cleaned(before@, now));
        }
    }

    /// Sweeps all rooms and drops the registrations that have waited too long.
    pub fn cleanup_rooms(&mut self, now: Instant)
        requires
            old(self).wf(),
        ensures
            final(self).wf(),
            final(self)@ == rooms_cleaned(old(self)@, now),
    {
        let ghost before = self@;
        self.evict_stale_rooms_all(now);
        self.pending.remove_stale_pending_regs(now);
        assert(self@ =~= rooms_cleaned(before, now));
    }

    pub fn max_rooms_for_test(&self) -> (n: usize)
        ensures
            n == self@.limits.max_rooms,
    {
        self.limits.max_rooms
    }

    pub fn max_clients_hard_for_test(&self) -> (n: usize)
        ensures
            n == self@.limits.max_clients_hard,
    {
        self.limits.max_clients_hard
    }

    pub fn set_max_rooms(&mut self, v: usize)
        ensures
            final(self)@ == (RelayView {
                limits: crate::config::Limits { max_rooms: v, ..old(self)@.limits },
                ..old(self)@
            }),
            old(self).wf() ==> final(self).wf(),
    {
        self.limits.max_rooms = v;
    }

    pub fn set_max_rooms_per_ip(&mut self, v: usize)
        ensures
            final(self)@ == (RelayView {
                limits: crate::config::Limits { max_rooms_per_ip: v, ..old(self)@.limits },
                ..old(self)@
            }),
            old(self).wf() ==> final(self).wf(),
    {
        self.limits.max_rooms_per_ip = v;
    }

    pub fn set_max_clients_hard(&mut self, v: usize)
        ensures
            final(self)@ == (RelayView {
                limits: crate::config::Limits { max_clients_hard: v, ..old(self)@.limits },
                ..old(self)@
            }),
            old(self).wf() ==> final(self).wf(),
    {
        self.limits.max_clients_hard = v;
    }

    pub fn set_max_msg_rate(&mut self, v: u32)
        ensures
            final(self)@ == (RelayView {
                limits: crate::config::Limits { max_msg_rate: v as usize, ..old(self)@.limits },
                ..old(self)@
            }),
            old(self).wf() ==> final(self).wf(),
    {
        self.limits.max_msg_rate = v as usize;
    }

    pub fn set_max_reg_rate(&mut self, v: u32)
        ensures
            final(self)@ == (RelayView {
                limits: crate::config::Limits { max_reg_rate: v as usize, ..old(self)@.limits },
                ..old(self)@
            }),
            old(self).wf() ==> final(self).wf(),
    {
        self.limits.max_reg_rate = v as usize;
    }

    pub fn set_reg_ttl(&mut self, d: Duration)
        ensures
            final(self)@ == (RelayView {
                limits: crate::config::Limits {
                    reg_ttl_ms: (d.nanos / crate::clock::NANOS_PER_MILLI) as u64,
                    ..old(self)@.limits
                },
                ..old(self)@
            }),
            old(self).wf() ==> final(self).wf(),
    {
        self.limits.reg_ttl_ms = d.as_millis() as u64;
    }

    pub fn set_max_pending_per_ip(&mut self, v: usize)
        ensures
            final(self)@ == (RelayView {
                limits: crate::config::Limits { max_pending_per_ip: v, ..old(self)@.limits },
                ..old(self)@
            }),
            old(self).wf() ==> final(self).wf(),
    {
        self.limits.max_pending_per_ip = v;
    }

    pub fn set_max_pending_global(&mut self, v: usize)
        ensures
            final(self)@ == (RelayView {
                limits: crate::config::Limits { max_pending_global: v, ..old(self)@.limits },
                ..old(self)@
            }),
            old(self).wf() ==> final(self).wf(),
    {
        self.limits.max_pending_global = v;
    }

    pub fn set_total_rooms(&mut self, v: usize)
        ensures
            final(self)@ == (RelayView { total_rooms: v, ..old(self)@ }),
            old(self).wf() ==> final(self).wf(),
    {
        self.total_room_count = v;
    }

    /// Puts an empty room into the table without counting it.
    pub fn insert_room_for_test(&mut self, room: &str, now: Instant)
        requires
            old(self).wf(),
        ensures
            final(self).wf(),
            final(self)@ == (RelayView {
                rooms: old(self)@.rooms.insert(
                    room@,
                    RoomView { clients: Map::empty(), pending: Map::empty(), t: now },
                ),
                ..old(self)@
            }),
    {
        self.rooms.put(room, RoomEntry::new(now));
        assert(self@ =~= RelayView {
            rooms: old(self)@.rooms.insert(
                room@,
                RoomView { clients: Map::empty(), pending: Map::empty(), t: now },
            ),
            ..old(self)@
        });
    }

    /// The room of that name.
    pub fn get_room_for_test(&self, room: &str) -> (r: Option<&RoomEntry>)
        requires
            self.wf(),
        ensures
            match r {
                Some(e) => self@.rooms.contains_key(room@) && e@ == self@.rooms[room@] && e.wf(),
                None => !self@.rooms.contains_key(room@),
            },
    {
        self.rooms.get(room)
    }

    /// Number of clients of a room.
    pub fn client_count(&self, room: &str) -> (r: Option<usize>)
        requires
            self.wf(),
        ensures
            match r {
                Some(n) => self@.rooms.contains_key(room@) && n
                    == self@.rooms[room@].clients.dom().len(),
                None => !self@.rooms.contains_key(room@),
            },
    {
        match self.rooms.get(room) {
            Some(e) => Some(e.udp_clients.len()),
            None => None,
        }
    }

    /// Sets what is known of a client, unless the room or the client is not
    /// there.
    pub fn set_client(&mut self, room: &str, client: SocketAddr, c: UdpClient)
        requires
            old(self).wf(),
        ensures
            final(self).wf(),
            final(self)@ == with_client(old(self)@, room@, client, c),
    {
        let ghost before = self@;
        let known = match self.rooms.get(room) {
            Some(e) => e.udp_clients.contains_key(&client),
            None => false,
        };
        if known {
            if let Some(taken) = self.rooms.take(room) {
                let mut e = taken;
                e.udp_clients.insert(client, c);
                self.rooms.put(room, e);
            }
        }
        assert(self@ =~= with_client(before, room@, client, c));
    }

    /// What is known of a client.
    pub fn get_client(&self, room: &str, client: SocketAddr) -> (r: Option<UdpClient>)
        requires
            self.wf(),
        ensures
            match r {
                Some(c) => self@.rooms.contains_key(room@)
                    && self@.rooms[room@].clients.contains_key(client) && c
                    == self@.rooms[room@].clients[client],
                None => !self@.rooms.contains_key(room@)
                    || !self@.rooms[room@].clients.contains_key(client),
            },
    {
        match self.rooms.get(room) {
            Some(e) => match e.udp_clients.get(&client) {
                Some(c) => Some(*c),
                None => None,
            },
            None => None,
        }
    }

    pub fn set_client_resolved_addr(
        &mut self,
        room: &str,
        client: SocketAddr,
        addr: Option<SocketAddr>,
    )
        requires
            old(self).wf(),
        ensures
            final(self).wf(),
            final(self)@ == with_client(
                old(self)@,
                room@,
                client,
                UdpClient {
                    resolved_addr: addr,
                    ..old(self)@.rooms[room@].clients[client]
                },
            ),
    {
        match self.get_client(room, client) {
            Some(c) => {
                self.set_client(
                    room,
                    client,
                    UdpClient {
                        last_seen: c.last_seen,
                        rate_limiter: c.rate_limiter,
                        resolved_addr: addr,
                    },
                );
            },
            None => {},
        }
    }

    pub fn touch_client_last_seen(&mut self, room: &str, client: SocketAddr, ts: Instant)
        requires
            old(self).wf(),
        ensures
            final(self).wf(),
            final(self)@ == with_client(
                old(self)@,
                room@,
                client,
                UdpClient { last_seen: ts, ..old(self)@.rooms[room@].clients[client] },
            ),
    {
        match self.get_client(room, client) {
            Some(c) => {
                self.set_client(
                    room,
                    client,
                    UdpClient {
                        last_seen: ts,
                        rate_limiter: c.rate_limiter,
                        resolved_addr: c.resolved_addr,
                    },
                );
            },
            None => {},
        }
    }

    /// When a client was last admitted to a room.
    pub fn room_t(&self, room: &str) -> (r: Option<Instant>)
        requires
            self.wf(),
        ensures
            r == (if self@.rooms.contains_key(room@) {
                Some(self@.rooms[room@].t)
            } else {
                None
            }),
    {
        match self.rooms.get(room) {
            Some(e) => Some(e.t),
            None => None,
        }
    }

    pub fn set_room_t(&mut self, room: &str, ts: Instant)
        requires
            old(self).wf(),
        ensures
            final(self).wf(),
            final(self)@ == (if old(self)@.rooms.contains_key(room@) {
                RelayView {
                    rooms: old(self)@.rooms.insert(
                        room@,
                        RoomView { t: ts, ..old(self)@.rooms[room@] },
                    ),
                    ..old(self)@
                }
            } else {
                old(self)@
            }),
    {
        let ghost before = self@;
        match self.rooms.take(room) {
            Some(taken) => {
                let mut e = taken;
                e.t = ts;
                self.rooms.put(room, e);
                assert(self@ =~= RelayView {
                    rooms: before.rooms.insert(room@, RoomView { t: ts, ..before.rooms[room@] }),
                    ..before
                });
            },
            None => {
                assert(self@ =~= before);
            },
        }
    }

    /// Number of registrations that wait in a room.
    pub fn pending_count_in_room(&self, room: &str) -> (n: usize)
        requires
            self.wf(),
        ensures
            n == (if self@.rooms.contains_key(room@) {
                self@.rooms[room@].pending.dom().len()
            } else {
                0
            }),
    {
        match self.rooms.get(room) {
            Some(e) => e.pending.len(),
            None => 0,
        }
    }

    /// Sets when the REG window of a source began.
    pub fn set_reg_rate_time(&mut self, key: &str, ts: Instant)
        requires
            old(self).wf(),
        ensures
            final(self).wf(),
            ({
                let i = crate::room::spec_shard_idx(key@, NUM_REG_SHARDS) as int;
                let r = old(self)@.regs[i];
                final(self)@ == (RelayView {
                    regs: old(self)@.regs.update(
                        i,
                        crate::room::RegShardView { times: r.times.insert(key@, ts), ..r },
                    ),
                    ..old(self)@
                })
            }),
    {
        let i: usize = shard_idx(key, NUM_REG_SHARDS);
        let ghost before = *self;
        assert(self.reg_shards@[i as int].wf());
        self.reg_shards[i].times.insert(key.to_owned(), ts);
        proof {
            assert(self.reg_shards@ =~= before.reg_shards@.update(
                i as int,
                self.reg_shards@[i as int],
            ));
            let r = before@.regs[i as int];
            let want = before@.regs.update(
                i as int,
                crate::room::RegShardView { times: r.times.insert(key@, ts), ..r },
            );
            assert(self@.regs =~= want);
            assert(self@ =~= RelayView { regs: want, ..before@ });
        }
    }
}

/// A relay in which a client of a room is `c`, if that client is there.
pub open spec fn with_client(s: RelayView, room: Seq<char>, a: SocketAddr, c: UdpClient)
    -> RelayView {
    if s.rooms.contains_key(room) && s.rooms[room].clients.contains_key(a) {
        RelayView {
            rooms: s.rooms.insert(
                room,
                RoomView { clients: s.rooms[room].clients.insert(a, c), ..s.rooms[room] },
            ),
            ..s
        }
    } else {
        s
    }
}

impl Relay {
    /// Counts a packet from `src` for which there was no room in the queue, and
    /// says so.
    pub fn queue_full(&mut self, src: &str) -> (s: String)
        requires
            old(self).wf(),
        ensures
            final(self).wf(),
            final(self)@ == (RelayView {
                stats: StatsSnapshot {
                    drops: old(self)@.stats.drops.wrapping_add(1),
                    ..old(self)@.stats
                },
                ..old(self)@
            }),
            s@ == "Packet dropped from "@ + src@ + ": worker channel full"@,
    {
        self.count_drop();
        let mut s = join2("Packet dropped from ", src);
        s.push_str(": worker channel full");
        s
    }

    /// Counts one more drop.
    pub fn count_drop(&mut self)
        requires
            old(self).wf(),
        ensures
            final(self).wf(),
            final(self)@ == (RelayView {
                stats: StatsSnapshot {
                    drops: old(self)@.stats.drops.wrapping_add(1),
                    ..old(self)@.stats
                },
                ..old(self)@
            }),
    {
        self.stats.drops = self.stats.drops.wrapping_add(1);
        assert(self@ =~= (RelayView {
            stats: StatsSnapshot {
                drops: old(self)@.stats.drops.wrapping_add(1),
                ..old(self)@.stats
            },
            ..old(self)@
        }));
    }

    /// The line of a periodic report.
    pub fn stats_line(&self) -> (s: String)
        requires
            self.wf(),
        ensures
            s@ == stats_text(
                self@.total_rooms as nat,
                all_clients(self@.rooms).len() % (usize::MAX + 1) as nat,
                self@.stats,
            ),
    {
        let mut s = join2("Stats: ", decimal(self.total_rooms() as u64).as_str());
        s.push_str(" rooms, ");
        s.push_str(decimal(self.total_clients() as u64).as_str());
        s.push_str(" clients | ");
        s.push_str(decimal(self.stats.regs as u64).as_str());
        s.push_str(" REGs, ");
        s.push_str(decimal(self.stats.msgs as u64).as_str());
        s.push_str(" MSGs relayed, ");
        s.push_str(decimal(self.stats.drops as u64).as_str());
        s.push_str(" drops");
        s
    }
}

/// What is reported of so many rooms and clients, and of what was counted.
pub open spec fn stats_text(rooms: nat, clients: nat, stats: StatsSnapshot) -> Seq<char> {
    "Stats: "@ + spec_decimal(rooms) + " rooms, "@ + spec_decimal(clients) + " clients | "@
        + spec_decimal(stats.regs as nat) + " REGs, "@ + spec_decimal(stats.msgs as nat)
        + " MSGs relayed, "@ + spec_decimal(stats.drops as nat) + " drops"@
}

} // verus!
