//! Room state, sharding, rate limiting, pending registrations and the
//! validation of names that arrive over the network.
use vstd::prelude::*;
use vstd::slice::slice_subrange;

use crate::clock::{Duration, Instant};
use crate::net::{IpAddr, SocketAddr};
use crate::table::Table;

verus! {

/// Number of room shards.
pub const NUM_SHARDS: usize = 16;

/// Number of REG rate-limit shards.
pub const NUM_REG_SHARDS: usize = 16;

/// Longest room name, in bytes.
pub const MAX_ROOM_NAME_LEN: usize = 64;

/// Longest datagram that is looked at.
pub const MAX_DATAGRAM_LEN: usize = 1400;

/// Lifetime of a registration that waits for its cookie, in milliseconds.
pub const PENDING_REG_TTL_MS: u64 = 5_000;

/// Size of a cookie.
pub const PENDING_COOKIE_BYTES: usize = 16;

/// Most sources one REG rate-limit shard keeps.
pub const MAX_REG_SHARD_ENTRIES: usize = 100_000;

/// One step of the 32-bit FNV-1a hash.
pub open spec fn fnv_step(h: u32, b: u8) -> u32 {
    (((h ^ (b as u32)) * 0x0100_0193) % 0x1_0000_0000) as u32
}

/// 32-bit FNV-1a of a byte string.
pub open spec fn spec_fnv1a32(s: Seq<u8>) -> u32
    decreases s.len(),
{
    if s.len() == 0 {
        0x811c_9dc5
    } else {
        fnv_step(spec_fnv1a32(s.drop_last()), s.last())
    }
}

/// 32-bit FNV-1a of the UTF-8 bytes of `key`.
pub fn fnv1a32(key: &str) -> (h: u32)
    ensures
        h == spec_fnv1a32(vstd::utf8::encode_utf8(key@)),
{
    let b = key.as_bytes();
    let mut h: u32 = 0x811c_9dc5;
    let mut i: usize = 0;
    while i < b.len()
        invariant
            i <= b@.len(),
            h == spec_fnv1a32(b@.take(i as int)),
        decreases b@.len() - i,
    {
        assert(b@.take(i + 1).drop_last() =~= b@.take(i as int));
        let x: u32 = h ^ (b[i] as u32);
        h = x.wrapping_mul(0x0100_0193);
        i = i + 1;
    }
    assert(b@.take(i as int) =~= b@);
    h
}

/// The shard of `n` that a key belongs to.
pub open spec fn spec_shard_idx(key: Seq<char>, n: usize) -> usize {
    (spec_fnv1a32(vstd::utf8::encode_utf8(key)) % (n as u32)) as usize
}

pub fn shard_idx(key: &str, n: usize) -> (i: usize)
    requires
        n as u32 != 0,
    ensures
        i == spec_shard_idx(key@, n),
        i < n as u32,
{
    (fnv1a32(key) % n as u32) as usize
}

/// The key under which a source address is accounted: its IP address, an
/// IPv4-mapped one in IPv4 form.
pub open spec fn spec_ip_key(src: SocketAddr) -> IpAddr {
    crate::net::canonical_ip(src.ip)
}

pub fn ip_key(src: SocketAddr) -> (ip: IpAddr)
    ensures
        ip == spec_ip_key(src),
{
    src.ip.canonical()
}

/// Printable ASCII, the space excluded.
pub open spec fn is_room_byte(b: u8) -> bool {
    33 <= b <= 126
}

/// Between 1 and 64 bytes, each of them printable ASCII and not a space.
pub open spec fn spec_valid_room_name(room: Seq<u8>) -> bool {
    &&& 1 <= room.len() <= MAX_ROOM_NAME_LEN
    &&& forall|i: int| 0 <= i < room.len() ==> is_room_byte(#[trigger] room[i])
}

pub fn valid_room_name(room: &[u8]) -> (b: bool)
    ensures
        b == spec_valid_room_name(room@),
{
    if room.len() == 0 || room.len() > MAX_ROOM_NAME_LEN {
        return false;
    }
    let mut i: usize = 0;
    while i < room.len()
        invariant
            i <= room@.len(),
            forall|j: int| 0 <= j < i ==> is_room_byte(#[trigger] room@[j]),
        decreases room@.len() - i,
    {
        if room[i] < 33 || room[i] > 126 {
            assert(!is_room_byte(room@[i as int]));
            return false;
        }
        i = i + 1;
    }
    true
}

/// `0-9`, `a-f` or `A-F`.
pub open spec fn is_hex_digit(b: u8) -> bool {
    48 <= b <= 57 || 97 <= b <= 102 || 65 <= b <= 70
}

/// Not empty, of even length, hex digits only.
pub open spec fn spec_is_valid_hex(s: Seq<u8>) -> bool {
    &&& s.len() > 0
    &&& s.len() % 2 == 0
    &&& forall|i: int| 0 <= i < s.len() ==> is_hex_digit(#[trigger] s[i])
}

pub fn is_valid_hex(s: &[u8]) -> (b: bool)
    ensures
        b == spec_is_valid_hex(s@),
{
    if s.len() == 0 || s.len() % 2 != 0 {
        return false;
    }
    let mut i: usize = 0;
    while i < s.len()
        invariant
            i <= s@.len(),
            forall|j: int| 0 <= j < i ==> is_hex_digit(#[trigger] s@[j]),
        decreases s@.len() - i,
    {
        let c: u8 = s[i];
        if !((48 <= c && c <= 57) || (97 <= c && c <= 102) || (65 <= c && c <= 70)) {
            assert(!is_hex_digit(s@[i as int]));
            return false;
        }
        i = i + 1;
    }
    true
}

/// Tab, line feed, vertical tab, form feed, carriage return or space.
pub open spec fn is_ascii_space(b: u8) -> bool {
    9 <= b <= 13 || b == 32
}

/// `s` without the white space at its ends.
pub open spec fn spec_trim(s: Seq<u8>) -> Seq<u8>
    decreases s.len(),
{
    if s.len() == 0 {
        s
    } else if is_ascii_space(s[0]) {
        spec_trim(s.drop_first())
    } else if is_ascii_space(s.last()) {
        spec_trim(s.drop_last())
    } else {
        s
    }
}

pub fn trim_ascii_space(b: &[u8]) -> (r: &[u8])
    ensures
        r@ == spec_trim(b@),
{
    let mut start: usize = 0;
    assert(b@.skip(0) =~= b@);
    while start < b.len() && ((9 <= b[start] && b[start] <= 13) || b[start] == 32)
        invariant
            start <= b@.len(),
            spec_trim(b@) == spec_trim(b@.skip(start as int)),
        decreases b@.len() - start,
    {
        assert(b@.skip(start as int)[0] == b@[start as int]);
        assert(b@.skip(start as int).drop_first() =~= b@.skip(start + 1));
        start = start + 1;
    }
    let mut end: usize = b.len();
    assert(b@.subrange(start as int, end as int) =~= b@.skip(start as int));
    while start < end && ((9 <= b[end - 1] && b[end - 1] <= 13) || b[end - 1] == 32)
        invariant
            start <= end <= b@.len(),
            start < b@.len() ==> !is_ascii_space(b@[start as int]),
            spec_trim(b@) == spec_trim(b@.subrange(start as int, end as int)),
        decreases end - start,
    {
        let ghost s = b@.subrange(start as int, end as int);
        assert(s[0] == b@[start as int]);
        assert(s.last() == b@[end - 1]);
        assert(s.drop_last() =~= b@.subrange(start as int, end - 1));
        end = end - 1;
    }
    let r = slice_subrange(b, start, end);
    assert(r@.len() > 0 ==> r@[0] == b@[start as int] && r@.last() == b@[end - 1]);
    r
}

/// Message budget of one client: how many it spent since `window_start`.
#[derive(Clone, Copy, Debug, PartialEq, Eq, Structural)]
pub struct RateLimiter {
    pub msg_count: u32,
    pub window_start: Instant,
}

impl RateLimiter {
    /// The limiter at `now`, with a new window begun if the old one is over.
    pub open spec fn rolled(self, now: Instant, rate_window: Duration) -> RateLimiter {
        if crate::clock::elapsed(now, self.window_start) > rate_window.nanos {
            RateLimiter { msg_count: 0, window_start: now }
        } else {
            self
        }
    }

    /// The limiter after a message at `now`, and whether the message passes.
    pub open spec fn spend(self, now: Instant, rate_window: Duration, max_msg_rate: u32) -> (
        RateLimiter,
        bool,
    ) {
        let r = self.rolled(now, rate_window);
        if r.msg_count >= max_msg_rate {
            (r, false)
        } else {
            (RateLimiter { msg_count: (r.msg_count + 1) as u32, ..r }, true)
        }
    }

    pub fn new(now: Instant) -> (r: Self)
        ensures
            r == (RateLimiter { msg_count: 0, window_start: now }),
    {
        RateLimiter { msg_count: 0, window_start: now }
    }

    /// Spends one message; true when the window's budget is used up.
    pub fn is_limited(&mut self, now: Instant, rate_window: Duration, max_msg_rate: u32) -> (b: bool)
        ensures
            (*final(self), !b) == old(self).spend(now, rate_window, max_msg_rate),
    {
        if now.duration_since(self.window_start).nanos > rate_window.nanos {
            self.msg_count = 0;
            self.window_start = now;
        }
        if self.msg_count >= max_msg_rate {
            return true;
        }
        self.msg_count = self.msg_count + 1;
        false
    }
}

/// An admitted client of a room.
#[derive(Clone, Copy, Debug, PartialEq, Eq, Structural)]
pub struct UdpClient {
    pub last_seen: Instant,
    pub rate_limiter: RateLimiter,
    pub resolved_addr: Option<SocketAddr>,
}

impl UdpClient {
    /// A client first seen at `now`.
    pub open spec fn fresh(now: Instant, resolved_addr: Option<SocketAddr>) -> UdpClient {
        UdpClient {
            last_seen: now,
            rate_limiter: RateLimiter { msg_count: 0, window_start: now },
            resolved_addr,
        }
    }

    pub fn new(now: Instant, resolved_addr: Option<SocketAddr>) -> (c: Self)
        ensures
            c == UdpClient::fresh(now, resolved_addr),
    {
        UdpClient { last_seen: now, rate_limiter: RateLimiter::new(now), resolved_addr }
    }
}

/// A registration whose sender still has to show that it can receive: the
/// cookie it was sent, when, and where to.
#[derive(Clone, Copy, Debug)]
pub struct PendingReg {
    pub cookie: [u8; PENDING_COOKIE_BYTES],
    pub created_at: Instant,
    pub resolved_addr: SocketAddr,
}

/// What a room holds.
#[verifier::ext_equal]
pub struct RoomView {
    pub clients: Map<SocketAddr, UdpClient>,
    pub pending: Map<SocketAddr, PendingReg>,
    pub t: Instant,
}

/// Number of addresses in `s` that belong to `ip`.
pub open spec fn count_for_ip(s: Set<SocketAddr>, ip: IpAddr) -> nat {
    s.filter(|a: SocketAddr| spec_ip_key(a) == ip).len()
}

/// Adding an address that is not in the set counts once, for its own IP.
pub proof fn lemma_count_insert(s: Set<SocketAddr>, a: SocketAddr)
    requires
        s.finite(),
        !s.contains(a),
    ensures
        forall|ip: IpAddr| #[trigger]
            count_for_ip(s.insert(a), ip) == count_for_ip(s, ip) + (if spec_ip_key(a) == ip {
                1nat
            } else {
                0nat
            }),
{
    assert forall|ip: IpAddr| #[trigger]
        count_for_ip(s.insert(a), ip) == count_for_ip(s, ip) + (if spec_ip_key(a) == ip {
            1nat
        } else {
            0nat
        }) by {
        let f = |x: SocketAddr| spec_ip_key(x) == ip;
        s.lemma_len_filter(f);
        if spec_ip_key(a) == ip {
            assert(s.insert(a).filter(f) =~= s.filter(f).insert(a));
        } else {
            assert(s.insert(a).filter(f) =~= s.filter(f));
        }
    }
}

/// Removing an address of the set takes one off, for its own IP.
pub proof fn lemma_count_remove(s: Set<SocketAddr>, a: SocketAddr)
    requires
        s.finite(),
        s.contains(a),
    ensures
        forall|ip: IpAddr| #[trigger]
            count_for_ip(s.remove(a), ip) == count_for_ip(s, ip) - (if spec_ip_key(a) == ip {
                1int
            } else {
                0int
            }),
{
    lemma_count_insert(s.remove(a), a);
    assert(s.remove(a).insert(a) =~= s);
    assert forall|ip: IpAddr| #[trigger]
        count_for_ip(s.remove(a), ip) == count_for_ip(s, ip) - (if spec_ip_key(a) == ip {
            1int
        } else {
            0int
        }) by {
        assert(count_for_ip(s.remove(a).insert(a), ip) == count_for_ip(s, ip));
    }
}

/// A counter per IP, kept for the IPs whose count is not zero.
pub open spec fn counts_match(m: Map<IpAddr, usize>, s: Set<SocketAddr>) -> bool {
    &&& s.finite()
    &&& forall|ip: IpAddr| #[trigger] m.contains_key(ip) <==> count_for_ip(s, ip) > 0
    &&& forall|ip: IpAddr| #[trigger] m.contains_key(ip) ==> m[ip] == count_for_ip(s, ip)
}

/// Adds one to the counter of `ip`.
pub(crate) fn count_up(m: &mut Table<IpAddr, usize>, src: SocketAddr, Ghost(s): Ghost<Set<SocketAddr>>)
    requires
        old(m).wf(),
        counts_match(old(m)@, s),
        !s.contains(src),
        count_for_ip(s, spec_ip_key(src)) < usize::MAX,
    ensures
        final(m).wf(),
        counts_match(final(m)@, s.insert(src)),
{
    let ip = ip_key(src);
    proof {
        lemma_count_insert(s, src);
    }
    let n: usize = match m.get(&ip) {
        Some(c) => *c,
        None => 0,
    };
    assert(n == count_for_ip(s, ip));
    m.insert(ip, n + 1);
    assert(counts_match(m@, s.insert(src)));
}

/// Takes one off the counter of `ip`, dropping it at zero.
pub(crate) fn count_down(m: &mut Table<IpAddr, usize>, src: SocketAddr, Ghost(s): Ghost<Set<SocketAddr>>)
    requires
        old(m).wf(),
        counts_match(old(m)@, s),
        s.contains(src),
    ensures
        final(m).wf(),
        counts_match(final(m)@, s.remove(src)),
{
    let ip = ip_key(src);
    proof {
        lemma_count_remove(s, src);
        assert(count_for_ip(s.remove(src), ip) == count_for_ip(s, ip) - 1);
    }
    let n: usize = match m.get(&ip) {
        Some(c) => *c,
        None => 0,
    };
    assert(n == count_for_ip(s, ip));
    if n == 1 {
        m.remove(&ip);
    } else {
        m.insert(ip, n - 1);
    }
    assert(counts_match(m@, s.remove(src)));
}

/// A room: its admitted clients, the registrations that wait in it for their
/// cookie, how many of these each IP has, and when a client was last admitted.
pub struct RoomEntry {
    pub udp_clients: Table<SocketAddr, UdpClient>,
    pub pending: Table<SocketAddr, PendingReg>,
    pub pending_by_ip: Table<IpAddr, usize>,
    pub t: Instant,
}

impl View for RoomEntry {
    type V = RoomView;

    open spec fn view(&self) -> RoomView {
        RoomView { clients: self.udp_clients@, pending: self.pending@, t: self.t }
    }
}

/// Unseen for longer than `reg_ttl`.
pub open spec fn is_stale(c: UdpClient, now: Instant, reg_ttl: Duration) -> bool {
    crate::clock::elapsed(now, c.last_seen) > reg_ttl.nanos
}

/// Waiting for longer than the lifetime of a pending registration.
pub open spec fn is_expired(p: PendingReg, now: Instant) -> bool {
    crate::clock::elapsed(now, p.created_at) > crate::clock::spec_from_millis(
        PENDING_REG_TTL_MS as nat,
    ).nanos
}

/// The clients that are not stale.
pub open spec fn fresh_clients(
    m: Map<SocketAddr, UdpClient>,
    now: Instant,
    reg_ttl: Duration,
) -> Map<SocketAddr, UdpClient> {
    Map::new(
        |a: SocketAddr| m.contains_key(a) && !is_stale(m[a], now, reg_ttl),
        |a: SocketAddr| m[a],
    )
}

/// The registrations that have not expired.
pub open spec fn live_pending(m: Map<SocketAddr, PendingReg>, now: Instant) -> Map<
    SocketAddr,
    PendingReg,
> {
    Map::new(|a: SocketAddr| m.contains_key(a) && !is_expired(m[a], now), |a: SocketAddr| m[a])
}

/// A room without its stale clients and expired registrations.
pub open spec fn swept(r: RoomView, now: Instant, reg_ttl: Duration) -> RoomView {
    RoomView {
        clients: fresh_clients(r.clients, now, reg_ttl),
        pending: live_pending(r.pending, now),
        t: r.t,
    }
}

/// `a` is the only client with its IP.
pub open spec fn alone(m: Map<SocketAddr, UdpClient>, a: SocketAddr) -> bool {
    forall|b: SocketAddr| #[trigger]
        m.contains_key(b) && b != a ==> spec_ip_key(b) != spec_ip_key(a)
}

/// A stale client that is the only one with its IP.
pub open spec fn leaves_alone(
    m: Map<SocketAddr, UdpClient>,
    a: SocketAddr,
    now: Instant,
    reg_ttl: Duration,
) -> bool {
    m.contains_key(a) && is_stale(m[a], now, reg_ttl) && alone(m, a)
}

/// The IPs that lose their link to a room when its stale clients go: those of
/// a stale client that no other client, stale or not, shares its IP with.
pub open spec fn unlinked_ips(
    m: Map<SocketAddr, UdpClient>,
    now: Instant,
    reg_ttl: Duration,
) -> Set<IpAddr> {
    Set::new(
        |ip: IpAddr|
            exists|a: SocketAddr| #[trigger]
                leaves_alone(m, a, now, reg_ttl) && spec_ip_key(a) == ip,
    )
}

/// A client other than `except` has the IP `ip`.
pub open spec fn ip_present(m: Map<SocketAddr, UdpClient>, ip: IpAddr, except: Option<SocketAddr>)
    -> bool {
    exists|b: SocketAddr| #[trigger] m.contains_key(b) && Some(b) != except && spec_ip_key(b) == ip
}

impl RoomEntry {
    /// Keys are distinct and the counters agree with the registrations.
    pub open spec fn wf(&self) -> bool {
        &&& self.udp_clients.wf()
        &&& self.pending.wf()
        &&& self.pending_by_ip.wf()
        &&& counts_match(self.pending_by_ip@, self.pending@.dom())
    }

    pub fn new(now: Instant) -> (e: Self)
        ensures
            e.wf(),
            e@ == (RoomView { clients: Map::empty(), pending: Map::empty(), t: now }),
    {
        let e = RoomEntry {
            udp_clients: Table::new(),
            pending: Table::new(),
            pending_by_ip: Table::new(),
            t: now,
        };
        proof {
            let d = e.pending@.dom();
            assert(d =~= Set::empty());
            assert forall|ip: IpAddr| count_for_ip(d, ip) == 0 by {
                assert(d.filter(|a: SocketAddr| spec_ip_key(a) == ip) =~= Set::empty());
            }
        }
        e
    }

    /// Some client other than `except` has the IP `ip`.
    pub fn has_ip(&self, ip: IpAddr, except: Option<SocketAddr>) -> (b: bool)
        requires
            self.wf(),
        ensures
            b == ip_present(self@.clients, ip, except),
    {
        let mut i: usize = 0;
        while i < self.udp_clients.entries.len()
            invariant
                self.wf(),
                i <= self.udp_clients.entries@.len(),
                forall|j: int|
                    0 <= j < i ==> {
                        let k = #[trigger] self.udp_clients.entries@[j].0;
                        Some(k) == except || spec_ip_key(k) != ip
                    },
            decreases self.udp_clients.entries@.len() - i,
        {
            let a: SocketAddr = self.udp_clients.entries[i].0;
            let skip = match except {
                Some(x) => x == a,
                None => false,
            };
            if !skip && ip_key(a) == ip {
                proof {
                    crate::table::lemma_entry(self.udp_clients.entries@, i as int);
                    assert(self@.clients.contains_key(a));
                }
                return true;
            }
            i = i + 1;
        }
        proof {
            assert forall|b: SocketAddr| #[trigger]
                self@.clients.contains_key(b) implies Some(b) == except || spec_ip_key(b)
                != ip by {
                let j = crate::table::keys_of(self.udp_clients.entries@).index_of(b);
                assert(crate::table::keys_of(self.udp_clients.entries@)[j] == b);
                assert(self.udp_clients.entries@[j].0 == b);
            }
        }
        false
    }

    /// Adds a registration that waits for its cookie, or replaces the one of
    /// the same source.
    pub fn add_pending(&mut self, src: SocketAddr, p: PendingReg)
        requires
            old(self).wf(),
            count_for_ip(old(self)@.pending.dom(), spec_ip_key(src)) < usize::MAX,
        ensures
            final(self).wf(),
            final(self)@ == (RoomView {
                pending: old(self)@.pending.insert(src, p),
                ..old(self)@
            }),
    {
        let ghost d = self.pending@.dom();
        let was = self.pending.insert(src, p);
        assert(self.pending@.dom() =~= d.insert(src));
        if was.is_none() {
            count_up(&mut self.pending_by_ip, src, Ghost(d));
        } else {
            assert(d.insert(src) =~= d);
        }
    }

    /// Replaces the registration of a source that has one.
    pub fn replace_pending(&mut self, src: SocketAddr, p: PendingReg)
        requires
            old(self).wf(),
            old(self)@.pending.contains_key(src),
        ensures
            final(self).wf(),
            final(self)@ == (RoomView {
                pending: old(self)@.pending.insert(src, p),
                ..old(self)@
            }),
    {
        let ghost d = self.pending@.dom();
        self.pending.insert(src, p);
        assert(self.pending@.dom() =~= d);
    }

    /// Takes out the registration of a source.
    pub fn remove_pending(&mut self, src: SocketAddr) -> (r: Option<PendingReg>)
        requires
            old(self).wf(),
        ensures
            final(self).wf(),
            final(self)@ == (RoomView { pending: old(self)@.pending.remove(src), ..old(self)@ }),
            r == (if old(self)@.pending.contains_key(src) {
                Some(old(self)@.pending[src])
            } else {
                None
            }),
    {
        let ghost d = self.pending@.dom();
        let removed = self.pending.remove(&src);
        assert(self.pending@.dom() =~= d.remove(src));
        if removed.is_some() {
            count_down(&mut self.pending_by_ip, src, Ghost(d));
        } else {
            assert(d.remove(src) =~= d);
        }
        removed
    }

    /// Number of registrations that wait in this room for an IP.
    pub fn pending_count_for_ip(&self, ip: IpAddr) -> (n: usize)
        requires
            self.wf(),
        ensures
            n == count_for_ip(self@.pending.dom(), ip),
    {
        match self.pending_by_ip.get(&ip) {
            Some(c) => *c,
            None => 0,
        }
    }

    /// Drops the stale clients and the expired registrations. Returns the
    /// links between an IP and `room` that end with them.
    pub fn remove_stale_clients(&mut self, room: &str, now: Instant, reg_ttl: Duration) -> (r: Vec<
        (IpAddr, String),
    >)
        requires
            old(self).wf(),
        ensures
            final(self).wf(),
            final(self)@ == swept(old(self)@, now, reg_ttl),
            forall|i: int| 0 <= i < r@.len() ==> (#[trigger] r@[i]).1@ == room@,
            unlinked_ips(old(self)@.clients, now, reg_ttl) == ips_of(r@).to_set(),
            ips_of(r@).no_duplicates(),
    {
        let ghost m = self.udp_clients@;
        let ghost es = self.udp_clients.entries@;
        let ghost before = self@;
        let mut unlinked: Vec<(IpAddr, String)> = Vec::new();
        let mut stale: Vec<SocketAddr> = Vec::new();
        let ghost mut from: Seq<SocketAddr> = Seq::empty();
        let mut i: usize = 0;
        while i < self.udp_clients.entries.len()
            invariant
                self.wf(),
                self@ == before,
                m == self.udp_clients@,
                es == self.udp_clients.entries@,
                i <= es.len(),
                forall|j: int|
                    0 <= j < i && is_stale((#[trigger] es[j]).1, now, reg_ttl) ==> stale@.contains(
                        es[j].0,
                    ),
                forall|j: int|
                    0 <= j < stale@.len() ==> m.contains_key(#[trigger] stale@[j]) && is_stale(
                        m[stale@[j]],
                        now,
                        reg_ttl,
                    ),
                from.len() == unlinked@.len(),
                forall|j: int|
                    0 <= j < from.len() ==> leaves_alone(m, #[trigger] from[j], now, reg_ttl)
                        && unlinked@[j].0 == spec_ip_key(from[j]) && unlinked@[j].1@ == room@,
                forall|j: int| 0 <= j < from.len() ==> key_before(es, i as int, #[trigger] from[j]),
                from.no_duplicates(),
                forall|j: int|
                    0 <= j < i && leaves_alone(m, (#[trigger] es[j]).0, now, reg_ttl)
                        ==> from.contains(es[j].0),
            decreases es.len() - i,
        {
            let a: SocketAddr = self.udp_clients.entries[i].0;
            let seen: Instant = self.udp_clients.entries[i].1.last_seen;
            proof {
                crate::table::lemma_entry(es, i as int);
            }
            let ghost stale0 = stale@;
            let ghost from0 = from;
            if now.duration_since(seen).nanos > reg_ttl.nanos {
                stale.push(a);
                assert(stale@[stale0.len() as int] == a);
                assert forall|x: SocketAddr| stale0.contains(x) implies stale@.contains(x) by {
                    let q = stale0.index_of(x);
                    assert(stale@[q] == x);
                }
                let ip = ip_key(a);
                let shared = self.has_ip(ip, Some(a));
                assert(shared == !alone(m, a)) by {
                    if !alone(m, a) {
                        let b = choose|b: SocketAddr| #[trigger]
                            m.contains_key(b) && b != a && spec_ip_key(b) == spec_ip_key(a);
                        assert(m.contains_key(b) && Some(b) != Some(a) && spec_ip_key(b) == ip);
                    }
                }
                if !shared {
                    unlinked.push((ip, room.to_owned()));
                    proof {
                        from = from.push(a);
                        assert(!from0.contains(a)) by {
                            if from0.contains(a) {
                                let q = from0.index_of(a);
                                assert(key_before(es, i as int, from0[q]));
                                let k = choose|k: int| 0 <= k < i && (#[trigger] es[k]).0 == from0[q];
                                assert(crate::table::keys_of(es)[k] == crate::table::keys_of(
                                    es,
                                )[i as int]);
                            }
                        }
                        assert(from[from0.len() as int] == a);
                        assert forall|x: SocketAddr| from0.contains(x) implies from.contains(x) by {
                            let q = from0.index_of(x);
                            assert(from[q] == x);
                        }
                    }
                }
            }
            assert forall|j: int| 0 <= j < from.len() implies key_before(
                es,
                i + 1,
                #[trigger] from[j],
            ) by {
                if j < from0.len() {
                    assert(key_before(es, i as int, from0[j]));
                } else {
                    assert(es[i as int].0 == from[j]);
                }
            }
            i = i + 1;
        }
        proof {
            lemma_unlinked(m, es, unlinked@, from, now, reg_ttl);
            assert forall|q: int| 0 <= q < unlinked@.len() implies (#[trigger] unlinked@[q]).1@
                == room@ by {
                assert(leaves_alone(m, from[q], now, reg_ttl));
            }
        }
        let mut j: usize = 0;
        while j < stale.len()
            invariant
                self.wf(),
                self.pending@ == before.pending,
                self.t == before.t,
                m == before.clients,
                j <= stale@.len(),
                forall|q: int|
                    0 <= q < stale@.len() ==> m.contains_key(#[trigger] stale@[q]) && is_stale(
                        m[stale@[q]],
                        now,
                        reg_ttl,
                    ),
                forall|a: SocketAddr| #[trigger]
                    self.udp_clients@.contains_key(a) ==> m.contains_key(a)
                        && self.udp_clients@[a] == m[a] && !stale@.take(j as int).contains(a),
                forall|a: SocketAddr| #[trigger]
                    m.contains_key(a) && !is_stale(m[a], now, reg_ttl)
                        ==> self.udp_clients@.contains_key(a),
            decreases stale@.len() - j,
        {
            let a: SocketAddr = stale[j];
            self.udp_clients.remove(&a);
            assert(stale@.take(j + 1) =~= stale@.take(j as int).push(a));
            assert forall|x: SocketAddr| #[trigger] self.udp_clients@.contains_key(x) implies !stale@.take(j + 1).contains(x) by {
                if stale@.take(j + 1).contains(x) {
                    let q = stale@.take(j + 1).index_of(x);
                    assert(stale@.take(j + 1)[q] == x);
                    if q < j {
                        assert(stale@.take(j as int)[q] == x);
                    }
                }
            }
            j = j + 1;
        }
        proof {
            assert(stale@.take(j as int) =~= stale@);
            assert forall|a: SocketAddr| m.contains_key(a) && is_stale(m[a], now, reg_ttl) implies
                stale@.contains(a) by {
                let q = crate::table::keys_of(es).index_of(a);
                assert(crate::table::keys_of(es)[q] == a);
                crate::table::lemma_entry(es, q);
                assert(es[q].0 == a);
            }
            assert(self.udp_clients@ =~= fresh_clients(m, now, reg_ttl));
        }
        self.remove_expired(now);
        unlinked
    }

    /// Drops the expired registrations.
    fn remove_expired(&mut self, now: Instant)
        requires
            old(self).wf(),
        ensures
            final(self).wf(),
            final(self)@ == (RoomView {
                pending: live_pending(old(self)@.pending, now),
                ..old(self)@
            }),
    {
        let ttl = Duration::from_millis(PENDING_REG_TTL_MS);
        let ghost before = self@;
        let ghost m = self.pending@;
        let ghost es = self.pending.entries@;
        let mut expired: Vec<SocketAddr> = Vec::new();
        let mut i: usize = 0;
        while i < self.pending.entries.len()
            invariant
                self.wf(),
                self@ == before,
                m == self.pending@,
                es == self.pending.entries@,
                i <= es.len(),
                ttl == crate::clock::spec_from_millis(PENDING_REG_TTL_MS as nat),
                forall|j: int|
                    0 <= j < i && is_expired((#[trigger] es[j]).1, now) ==> expired@.contains(
                        es[j].0,
                    ),
                forall|j: int|
                    0 <= j < expired@.len() ==> m.contains_key(#[trigger] expired@[j])
                        && is_expired(m[expired@[j]], now),
            decreases es.len() - i,
        {
            let a: SocketAddr = self.pending.entries[i].0;
            let at: Instant = self.pending.entries[i].1.created_at;
            proof {
                crate::table::lemma_entry(es, i as int);
            }
            let ghost expired0 = expired@;
            if now.duration_since(at).nanos > ttl.nanos {
                expired.push(a);
                assert(expired@[expired0.len() as int] == a);
                assert forall|x: SocketAddr| expired0.contains(x) implies expired@.contains(x) by {
                    let q = expired0.index_of(x);
                    assert(expired@[q] == x);
                }
            }
            i = i + 1;
        }
        let mut j: usize = 0;
        while j < expired.len()
            invariant
                self.wf(),
                self.udp_clients@ == before.clients,
                self.t == before.t,
                j <= expired@.len(),
                forall|q: int|
                    0 <= q < expired@.len() ==> m.contains_key(#[trigger] expired@[q])
                        && is_expired(m[expired@[q]], now),
                forall|a: SocketAddr| #[trigger]
                    self.pending@.contains_key(a) ==> m.contains_key(a) && self.pending@[a] == m[a]
                        && !expired@.take(j as int).contains(a),
                forall|a: SocketAddr| #[trigger]
                    m.contains_key(a) && !is_expired(m[a], now) ==> self.pending@.contains_key(a),
            decreases expired@.len() - j,
        {
            let a: SocketAddr = expired[j];
            let ghost v0 = self@;
            self.remove_pending(a);
            assert(self.pending@ == v0.pending.remove(a));
            assert(expired@.take(j + 1) =~= expired@.take(j as int).push(a));
            assert forall|x: SocketAddr| #[trigger] self.pending@.contains_key(x) implies !expired@.take(j + 1).contains(x) by {
                if expired@.take(j + 1).contains(x) {
                    let q = expired@.take(j + 1).index_of(x);
                    assert(expired@.take(j + 1)[q] == x);
                    if q < j {
                        assert(expired@.take(j as int)[q] == x);
                    }
                }
            }
            j = j + 1;
        }
        proof {
            assert(expired@.take(j as int) =~= expired@);
            assert forall|a: SocketAddr| m.contains_key(a) && is_expired(m[a], now) implies
                expired@.contains(a) by {
                let q = crate::table::keys_of(es).index_of(a);
                assert(crate::table::keys_of(es)[q] == a);
                crate::table::lemma_entry(es, q);
                assert(es[q].0 == a);
            }
            assert(self.pending@ =~= live_pending(m, now));
        }
    }
}

/// One of the first `i` entries has the key `a`.
spec fn key_before(es: Seq<(SocketAddr, UdpClient)>, i: int, a: SocketAddr) -> bool {
    exists|k: int| 0 <= k < i && (#[trigger] es[k]).0 == a
}

/// The IPs of a list of links.
pub open spec fn ips_of(r: Seq<(IpAddr, String)>) -> Seq<IpAddr> {
    Seq::new(r.len(), |i: int| r[i].0)
}

/// What the first loop of [`RoomEntry::remove_stale_clients`] collects is the
/// set of IPs that lose their link, each once.
proof fn lemma_unlinked(
    m: Map<SocketAddr, UdpClient>,
    es: Seq<(SocketAddr, UdpClient)>,
    r: Seq<(IpAddr, String)>,
    from: Seq<SocketAddr>,
    now: Instant,
    reg_ttl: Duration,
)
    requires
        crate::table::keys_of(es).no_duplicates(),
        m == crate::table::map_of(es),
        from.len() == r.len(),
        from.no_duplicates(),
        forall|j: int|
            0 <= j < from.len() ==> leaves_alone(m, #[trigger] from[j], now, reg_ttl) && r[j].0
                == spec_ip_key(from[j]),
        forall|j: int|
            0 <= j < es.len() && leaves_alone(m, (#[trigger] es[j]).0, now, reg_ttl)
                ==> from.contains(es[j].0),
    ensures
        unlinked_ips(m, now, reg_ttl) == ips_of(r).to_set(),
        ips_of(r).no_duplicates(),
{
    let ips = ips_of(r);
    assert forall|ip: IpAddr|
        unlinked_ips(m, now, reg_ttl).contains(ip) == ips.to_set().contains(ip) by {
        if unlinked_ips(m, now, reg_ttl).contains(ip) {
            let a = choose|a: SocketAddr| #[trigger]
                leaves_alone(m, a, now, reg_ttl) && spec_ip_key(a) == ip;
            let q = crate::table::keys_of(es).index_of(a);
            assert(crate::table::keys_of(es)[q] == a);
            assert(es[q].0 == a);
            let j = from.index_of(a);
            assert(from[j] == a);
            assert(ips[j] == ip);
        }
        if ips.to_set().contains(ip) {
            let j = ips.index_of(ip);
            assert(ips[j] == ip);
            assert(leaves_alone(m, from[j], now, reg_ttl));
        }
    }
    assert(unlinked_ips(m, now, reg_ttl) =~= ips.to_set());
    assert forall|a: int, b: int| 0 <= a < b < ips.len() implies ips[a] != ips[b] by {
        assert(leaves_alone(m, from[a], now, reg_ttl));
        assert(leaves_alone(m, from[b], now, reg_ttl));
        assert(m.contains_key(from[b]) && from[b] != from[a]);
    }
}

/// REG budget of each source: how many it spent, and since when.
pub struct RegShard {
    pub sent: Table<String, u32>,
    pub times: Table<String, Instant>,
}

/// What a [`RegShard`] holds.
#[verifier::ext_equal]
pub struct RegShardView {
    pub sent: Map<Seq<char>, u32>,
    pub times: Map<Seq<char>, Instant>,
}

impl View for RegShard {
    type V = RegShardView;

    open spec fn view(&self) -> RegShardView {
        RegShardView { sent: self.sent@, times: self.times@ }
    }
}

impl RegShardView {
    /// Number of REGs that `src` spent in its window.
    pub open spec fn spent(self, src: Seq<char>) -> u32 {
        if self.sent.contains_key(src) {
            self.sent[src]
        } else {
            0
        }
    }

    /// `src` has a window that is not over at `now`.
    pub open spec fn in_window(self, src: Seq<char>, now: Instant, rate_window: Duration) -> bool {
        self.times.contains_key(src) && crate::clock::elapsed(now, self.times[src])
            <= rate_window.nanos
    }

    /// A REG of `src` at `now` is over budget: its window's budget is used
    /// up, or it is new and the shard is full.
    pub open spec fn limits(
        self,
        src: Seq<char>,
        now: Instant,
        rate_window: Duration,
        max_rate: u32,
    ) -> bool {
        if self.times.contains_key(src) {
            self.in_window(src, now, rate_window) && self.spent(src) >= max_rate
        } else {
            self.times.dom().len() >= MAX_REG_SHARD_ENTRIES
        }
    }

    /// The shard after that REG.
    pub open spec fn after(
        self,
        src: Seq<char>,
        now: Instant,
        rate_window: Duration,
        max_rate: u32,
    ) -> RegShardView {
        if self.limits(src, now, rate_window, max_rate) {
            if self.times.contains_key(src) && !self.sent.contains_key(src) {
                RegShardView { sent: self.sent.insert(src, 0), times: self.times }
            } else {
                self
            }
        } else if self.in_window(src, now, rate_window) {
            RegShardView {
                sent: self.sent.insert(src, (self.spent(src) + 1) as u32),
                times: self.times,
            }
        } else {
            RegShardView { sent: self.sent.insert(src, 1), times: self.times.insert(src, now) }
        }
    }

    /// The shard without the sources whose window began more than `max_age`
    /// ago, each of the two maps emptied if it is still over its bound.
    pub open spec fn cleaned(self, now: Instant, max_age: Duration) -> RegShardView {
        let old_srcs = Set::new(
            |src: Seq<char>|
                self.times.contains_key(src) && crate::clock::elapsed(now, self.times[src])
                    > max_age.nanos,
        );
        let sent = self.sent.remove_keys(old_srcs);
        let times = self.times.remove_keys(old_srcs);
        RegShardView {
            sent: if sent.dom().len() > MAX_REG_SHARD_ENTRIES {
                Map::empty()
            } else {
                sent
            },
            times: if times.dom().len() > MAX_REG_SHARD_ENTRIES {
                Map::empty()
            } else {
                times
            },
        }
    }
}

impl RegShard {
    pub open spec fn wf(&self) -> bool {
        self.sent.wf() && self.times.wf()
    }

    pub fn new() -> (r: Self)
        ensures
            r.wf(),
            r@ == (RegShardView { sent: Map::empty(), times: Map::empty() }),
    {
        RegShard { sent: Table::new(), times: Table::new() }
    }

    /// Spends one REG of `src`; true when it is over budget.
    pub fn is_limited(
        &mut self,
        src: &str,
        now: Instant,
        rate_window: Duration,
        max_rate: u32,
    ) -> (b: bool)
        requires
            old(self).wf(),
        ensures
            final(self).wf(),
            b == old(self)@.limits(src@, now, rate_window, max_rate),
            final(self)@ == old(self)@.after(src@, now, rate_window, max_rate),
    {
        let key = src.to_owned();
        let begun: Option<Instant> = match self.times.get(&key) {
            Some(t) => Some(*t),
            None => None,
        };
        match begun {
            None => {
                if self.times.len() >= MAX_REG_SHARD_ENTRIES {
                    return true;
                }
                self.sent.insert(src.to_owned(), 1);
                self.times.insert(key, now);
                false
            },
            Some(t) => {
                if now.duration_since(t).nanos > rate_window.nanos {
                    self.sent.insert(src.to_owned(), 1);
                    self.times.insert(key, now);
                    false
                } else {
                    let count: u32 = match self.sent.get(&key) {
                        Some(c) => *c,
                        None => 0,
                    };
                    if count >= max_rate {
                        self.sent.insert(key, count);
                        assert(self@ =~= old(self)@.after(src@, now, rate_window, max_rate));
                        return true;
                    }
                    self.sent.insert(key, count + 1);
                    false
                }
            },
        }
    }

    /// Forgets the sources whose window began more than `max_age` ago.
    pub fn cleanup_stale(&mut self, now: Instant, max_age: Duration)
        requires
            old(self).wf(),
        ensures
            final(self).wf(),
            final(self)@ == old(self)@.cleaned(now, max_age),
    {
        let ghost before = self@;
        let ghost old_srcs = Set::new(
            |src: Seq<char>|
                before.times.contains_key(src) && crate::clock::elapsed(now, before.times[src])
                    > max_age.nanos,
        );
        let stale = older_than(&self.times, now, max_age);
        let mut j: usize = 0;
        while j < stale.len()
            invariant
                self.wf(),
                j <= stale@.len(),
                self@.sent == before.sent.remove_keys(views_of(stale@.take(j as int)).to_set()),
                self@.times == before.times.remove_keys(views_of(stale@.take(j as int)).to_set()),
            decreases stale@.len() - j,
        {
            let ghost done = views_of(stale@.take(j as int));
            self.sent.remove(&stale[j]);
            self.times.remove(&stale[j]);
            proof {
                assert(views_of(stale@.take(j + 1)) =~= done.push(stale@[j as int]@));
                done.lemma_push_to_set_commute(stale@[j as int]@);
                assert(views_of(stale@.take(j + 1)).to_set() =~= done.to_set().insert(
                    stale@[j as int]@,
                ));
                assert(self@.sent =~= before.sent.remove_keys(
                    views_of(stale@.take(j + 1)).to_set(),
                ));
                assert(self@.times =~= before.times.remove_keys(
                    views_of(stale@.take(j + 1)).to_set(),
                ));
            }
            j = j + 1;
        }
        proof {
            assert(stale@.take(j as int) =~= stale@);
            assert(views_of(stale@).to_set() =~= old_srcs);
        }
        if self.sent.len() > MAX_REG_SHARD_ENTRIES {
            self.sent = Table::new();
        }
        if self.times.len() > MAX_REG_SHARD_ENTRIES {
            self.times = Table::new();
        }
        assert(self@ =~= before.cleaned(now, max_age));
    }
}

/// The views of a list of strings.
pub open spec fn views_of(s: Seq<String>) -> Seq<Seq<char>> {
    Seq::new(s.len(), |i: int| s[i]@)
}

/// The keys whose instant lies more than `max_age` before `now`.
fn older_than(t: &Table<String, Instant>, now: Instant, max_age: Duration) -> (r: Vec<String>)
    requires
        t.wf(),
    ensures
        forall|k: Seq<char>|
            views_of(r@).to_set().contains(k) <==> t@.contains_key(k) && crate::clock::elapsed(
                now,
                t@[k],
            ) > max_age.nanos,
{
    let ghost es = t.entries@;
    let mut r: Vec<String> = Vec::new();
    let mut i: usize = 0;
    while i < t.entries.len()
        invariant
            t.wf(),
            es == t.entries@,
            i <= es.len(),
            forall|j: int|
                0 <= j < r@.len() ==> t@.contains_key((#[trigger] r@[j])@) && crate::clock::elapsed(
                    now,
                    t@[r@[j]@],
                ) > max_age.nanos,
            forall|j: int|
                0 <= j < i && crate::clock::elapsed(now, (#[trigger] es[j]).1) > max_age.nanos
                    ==> views_of(r@).contains(es[j].0@),
        decreases es.len() - i,
    {
        proof {
            crate::table::lemma_entry(es, i as int);
        }
        let ghost r0 = r@;
        if now.duration_since(t.entries[i].1).nanos > max_age.nanos {
            r.push(t.entries[i].0.clone());
            proof {
                assert(views_of(r@)[r0.len() as int] == es[i as int].0@);
                assert forall|x: Seq<char>| views_of(r0).contains(x) implies views_of(
                    r@,
                ).contains(x) by {
                    let q = views_of(r0).index_of(x);
                    assert(views_of(r@)[q] == x);
                }
            }
        }
        i = i + 1;
    }
    proof {
        assert forall|k: Seq<char>|
            views_of(r@).to_set().contains(k) <==> t@.contains_key(k) && crate::clock::elapsed(
                now,
                t@[k],
            ) > max_age.nanos by {
            if views_of(r@).contains(k) {
                let q = views_of(r@).index_of(k);
                assert(r@[q]@ == k);
            }
            if t@.contains_key(k) && crate::clock::elapsed(now, t@[k]) > max_age.nanos {
                let q = crate::table::keys_of(es).index_of(k);
                assert(crate::table::keys_of(es)[q] == k);
                crate::table::lemma_entry(es, q);
                assert(es[q].0@ == k);
            }
        }
    }
    r
}

/// When a drop was last logged for each IP.
pub struct DropLogLimiter {
    pub last: Table<String, Instant>,
}

impl View for DropLogLimiter {
    type V = Map<Seq<char>, Instant>;

    open spec fn view(&self) -> Map<Seq<char>, Instant> {
        self.last@
    }
}

/// A drop from `ip` may be logged at `now`: none was logged in the `interval`
/// before.
pub open spec fn may_log(
    last: Map<Seq<char>, Instant>,
    ip: Seq<char>,
    now: Instant,
    interval: Duration,
) -> bool {
    last.contains_key(ip) ==> crate::clock::elapsed(now, last[ip]) >= interval.nanos
}

impl DropLogLimiter {
    pub open spec fn wf(&self) -> bool {
        self.last.wf()
    }

    pub fn new() -> (r: Self)
        ensures
            r.wf(),
            r@ == Map::<Seq<char>, Instant>::empty(),
    {
        DropLogLimiter { last: Table::new() }
    }

    /// Asks to log a drop; notes the time when it may be.
    pub fn allow(&mut self, ip: &str, now: Instant, interval: Duration) -> (b: bool)
        requires
            old(self).wf(),
        ensures
            final(self).wf(),
            b == may_log(old(self)@, ip@, now, interval),
            final(self)@ == (if b {
                old(self)@.insert(ip@, now)
            } else {
                old(self)@
            }),
    {
        let key = ip.to_owned();
        let recent = match self.last.get(&key) {
            Some(t) => now.duration_since(*t).nanos < interval.nanos,
            None => false,
        };
        if recent {
            return false;
        }
        self.last.insert(key, now);
        true
    }

    /// Forgets the IPs whose last log line is older than `max_age`.
    pub fn cleanup_stale(&mut self, now: Instant, max_age: Duration)
        requires
            old(self).wf(),
        ensures
            final(self).wf(),
            final(self)@ == Map::new(
                |ip: Seq<char>|
                    old(self)@.contains_key(ip) && crate::clock::elapsed(now, old(self)@[ip])
                        <= max_age.nanos,
                |ip: Seq<char>| old(self)@[ip],
            ),
    {
        let ghost before = self@;
        let stale = older_than(&self.last, now, max_age);
        let mut j: usize = 0;
        while j < stale.len()
            invariant
                self.wf(),
                j <= stale@.len(),
                self@ == before.remove_keys(views_of(stale@.take(j as int)).to_set()),
            decreases stale@.len() - j,
        {
            let ghost done = views_of(stale@.take(j as int));
            self.last.remove(&stale[j]);
            proof {
                assert(views_of(stale@.take(j + 1)) =~= done.push(stale@[j as int]@));
                done.lemma_push_to_set_commute(stale@[j as int]@);
                assert(views_of(stale@.take(j + 1)).to_set() =~= done.to_set().insert(
                    stale@[j as int]@,
                ));
                assert(self@ =~= before.remove_keys(views_of(stale@.take(j + 1)).to_set()));
            }
            j = j + 1;
        }
        assert(stale@.take(j as int) =~= stale@);
    }
}

/// The reply that a REG calls for.
#[derive(Clone, Copy, Debug)]
pub enum RegAction {
    /// `REGD <room> OK <src>`.
    Regd,
    /// `REGD <room> <cookie>`, a challenge.
    Challenge([u8; PENDING_COOKIE_BYTES]),
    /// No reply.
    Silent,
}

} // verus!
