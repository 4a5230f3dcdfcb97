//! What a relay owes to those who use it: who is challenged, who is admitted,
//! whose messages are passed on, and for what reasons only a datagram may be
//! dropped.
use vstd::prelude::*;

use crate::clock::Instant;
use crate::model::{Answer, DropReason, RelayView, SourceView, Stage};
use crate::net::{IpAddr, SocketAddr};
use crate::room::{PendingReg, RoomView, UdpClient};

verus! {

/// The IP that a source is accounted under.
pub open spec fn ip_of(a: SocketAddr) -> IpAddr {
    match a.ip {
        IpAddr::V4(v) => IpAddr::V4(v),
        IpAddr::V6(v) => if 0xffff_0000_0000 <= v <= 0xffff_ffff_ffff {
            IpAddr::V4((v - 0xffff_0000_0000) as u32)
        } else {
            IpAddr::V6(v)
        },
    }
}

/// `now` is at most `ms` milliseconds after `t`.
pub open spec fn within(t: Instant, now: Instant, ms: int) -> bool {
    now.nanos <= t.nanos + ms * 1_000_000
}

/// The clients of a room that were seen within the lifetime of a registration.
pub open spec fn active(s: RelayView, room: Seq<char>, now: Instant) -> Set<SocketAddr> {
    Set::new(
        |a: SocketAddr|
            s.rooms[room].clients.contains_key(a) && within(
                s.rooms[room].clients[a].last_seen,
                now,
                s.limits.reg_ttl_ms as int,
            ),
    )
}

/// The rooms that an IP takes part in.
pub open spec fn rooms_of(s: RelayView, ip: IpAddr) -> Set<Seq<char>> {
    Set::new(|room: Seq<char>| s.links.contains((ip, room)))
}

/// The registrations of an IP that wait for a room that does not exist yet.
pub open spec fn waiting_in_store(s: RelayView, ip: IpAddr) -> Set<(Seq<char>, SocketAddr)> {
    Set::new(|k: (Seq<char>, SocketAddr)| s.pending.contains_key(k) && ip_of(k.1) == ip)
}

/// The registrations of an IP that wait in a room and have not expired.
pub open spec fn waiting_in_room(s: RelayView, room: Seq<char>, ip: IpAddr, now: Instant) -> Set<
    SocketAddr,
> {
    Set::new(
        |a: SocketAddr|
            s.rooms[room].pending.contains_key(a) && ip_of(a) == ip && within(
                s.rooms[room].pending[a].created_at,
                now,
                5_000,
            ),
    )
}

/// The source has spent its registrations: in a window that is not over it sent
/// as many as it may, or it is new and no more sources can be counted.
pub open spec fn reg_budget_spent(s: RelayView, src: SourceView, now: Instant) -> bool {
    let shard = s.regs[RelayView::reg_shard(src)];
    if shard.times.contains_key(src.text) {
        &&& within(shard.times[src.text], now, s.limits.rate_window_ms as int)
        &&& (if shard.sent.contains_key(src.text) {
            shard.sent[src.text]
        } else {
            0
        }) >= s.limits.max_reg_rate as u32
    } else {
        shard.times.dom().len() >= 100_000
    }
}

/// A cookie as it is sent over the wire.
pub open spec fn cookie_text(c: Seq<u8>) -> Seq<u8> {
    vstd::utf8::encode_utf8(crate::hex::spec_to_hex(c))
}

proof fn lemma_cookie_text(c: Seq<u8>)
    requires
        c.len() == 16,
    ensures
        crate::hex::spec_hex_decode(cookie_text(c)) == Some(c),
        cookie_text(c).len() == 32,
{
    crate::hex::law_hex_round_trip(c);
    let e = cookie_text(c);
    let d = crate::hex::spec_hex_decode(e)->0;
    assert(d.len() == e.len() / 2);
}

proof fn lemma_spans(s: RelayView, now: Instant)
    ensures
        s.limits.spec_reg_ttl().nanos == s.limits.reg_ttl_ms * 1_000_000,
        s.limits.spec_rate_window().nanos == s.limits.rate_window_ms * 1_000_000,
        crate::clock::spec_from_millis(crate::room::PENDING_REG_TTL_MS as nat).nanos
            == 5_000_000_000,
{
    assert(s.limits.reg_ttl_ms * 1_000_000 <= u128::MAX);
    assert(s.limits.rate_window_ms * 1_000_000 <= u128::MAX);
}

proof fn lemma_swept_clients(s: RelayView, room: Seq<char>, now: Instant)
    ensures
        s.sweep_room(room, now).rooms[room].clients.dom() == active(s, room, now),
        forall|a: SocketAddr| #[trigger]
            active(s, room, now).contains(a) ==> s.sweep_room(room, now).rooms[room].clients[a]
                == s.rooms[room].clients[a],
{
    lemma_spans(s, now);
    assert(s.sweep_room(room, now).rooms[room].clients.dom() =~= active(s, room, now));
}

proof fn lemma_rooms_of_ip(s: RelayView, ip: IpAddr)
    ensures
        s.ip_rooms(ip) == rooms_of(s, ip).len(),
        crate::links::rooms_of_ip(s.links, ip) == rooms_of(s, ip),
{
    assert(crate::links::rooms_of_ip(s.links, ip) =~= rooms_of(s, ip));
}

proof fn lemma_fewer_rooms(s: RelayView, s2: RelayView, ip: IpAddr)
    requires
        s2.links.subset_of(s.links),
        rooms_of(s, ip).finite(),
    ensures
        s2.ip_rooms(ip) <= rooms_of(s, ip).len(),
{
    lemma_rooms_of_ip(s2, ip);
    vstd::set_lib::lemma_len_subset(rooms_of(s2, ip), rooms_of(s, ip));
}

/// Somebody was admitted to a room: it is told so, it is a client that can be
/// sent to at `to`, every active client is one still, nobody else is, and the
/// IP takes part in the room. No other room is touched.
pub open spec fn admitted(
    s: RelayView,
    s2: RelayView,
    room: Seq<char>,
    a: SocketAddr,
    to: SocketAddr,
    now: Instant,
) -> bool {
    &&& s2.rooms.contains_key(room)
    &&& s2.rooms[room].clients.dom() == active(s, room, now).insert(a)
    &&& s2.rooms[room].clients[a].last_seen == now
    &&& s2.rooms[room].clients[a].resolved_addr == Some(to)
    &&& s2.rooms[room].clients[a].rate_limiter.msg_count == 0
    &&& s2.rooms[room].clients[a].rate_limiter.window_start == now
    &&& s2.rooms[room].t == now
    &&& forall|b: SocketAddr| #[trigger]
        active(s, room, now).contains(b) && b != a ==> s2.rooms[room].clients[b]
            == s.rooms[room].clients[b]
    &&& forall|x: Seq<char>|
        x != room ==> (#[trigger] s2.rooms.contains_key(x) <==> s.rooms.contains_key(x))
            && s2.rooms[x] == s.rooms[x]
}

/// Whoever sends back the cookie that it was challenged with in a room is
/// admitted, unless the room is full or its IP takes part in as many rooms as
/// it may: who else is in the room does not matter.
pub proof fn law_cookie_of_room_admits(
    s: RelayView,
    room: Seq<char>,
    src: SourceView,
    now: Instant,
    fresh: [u8; crate::room::PENDING_COOKIE_BYTES],
)
    requires
        s.rooms.contains_key(room),
        s.rooms[room].pending.contains_key(src.addr),
        !s.pending.contains_key((room, src.addr)),
        active(s, room, now).len() < s.limits.max_clients_hard,
        rooms_of(s, ip_of(src.addr)).finite(),
        rooms_of(s, ip_of(src.addr)).len() < s.limits.max_rooms_per_ip,
    ensures
        ({
            let p = s.rooms[room].pending[src.addr];
            let e = s.handle_reg(room, cookie_text(p.cookie@), src, now, fresh);
            &&& e.answer == Answer::Regd { room }
            &&& e.dropped is None
            &&& admitted(s, e.state, room, src.addr, p.resolved_addr, now)
            &&& !e.state.rooms[room].pending.contains_key(src.addr)
            &&& e.state.total_rooms == s.total_rooms
            &&& e.state.pending == s.pending
        }),
{
    let p = s.rooms[room].pending[src.addr];
    lemma_cookie_text(p.cookie@);
    lemma_swept_clients(s, room, now);
    lemma_fewer_rooms(s, s.sweep_room(room, now), ip_of(src.addr));
    let e = s.handle_reg(room, cookie_text(p.cookie@), src, now, fresh);
    assert(e.state.rooms[room].clients.dom() =~= active(s, room, now).insert(src.addr));
}

/// Whoever sends back the cookie that it was challenged with before the room
/// was there is admitted to the room that is there now, by the same rule.
pub proof fn law_cookie_of_store_admits(
    s: RelayView,
    room: Seq<char>,
    src: SourceView,
    now: Instant,
    fresh: [u8; crate::room::PENDING_COOKIE_BYTES],
)
    requires
        s.rooms.contains_key(room),
        s.pending.contains_key((room, src.addr)),
        s.total_rooms < s.limits.max_rooms,
        active(s, room, now).len() < s.limits.max_clients_hard,
        rooms_of(s, ip_of(src.addr)).finite(),
        rooms_of(s, ip_of(src.addr)).len() < s.limits.max_rooms_per_ip,
    ensures
        ({
            let p = s.pending[(room, src.addr)];
            let e = s.handle_reg(room, cookie_text(p.cookie@), src, now, fresh);
            &&& e.answer == Answer::Regd { room }
            &&& e.dropped is None
            &&& admitted(s, e.state, room, src.addr, p.resolved_addr, now)
            &&& e.state.pending == s.pending.remove((room, src.addr))
            &&& e.state.total_rooms == s.total_rooms
        }),
{
    let p = s.pending[(room, src.addr)];
    lemma_cookie_text(p.cookie@);
    let s1 = RelayView { pending: s.pending.remove((room, src.addr)), ..s };
    lemma_swept_clients(s1, room, now);
    assert(active(s1, room, now) =~= active(s, room, now));
    assert(rooms_of(s1, ip_of(src.addr)) =~= rooms_of(s, ip_of(src.addr)));
    lemma_fewer_rooms(s1, s1.sweep_room(room, now), ip_of(src.addr));
    let e = s.handle_reg(room, cookie_text(p.cookie@), src, now, fresh);
    assert(e.state.rooms[room].clients.dom() =~= active(s, room, now).insert(src.addr));
}

/// Whoever sends back the cookie that it was challenged with for a room that is
/// not there gets the room: it is made, with the sender as its one client.
pub proof fn law_cookie_makes_room(
    s: RelayView,
    room: Seq<char>,
    src: SourceView,
    now: Instant,
    fresh: [u8; crate::room::PENDING_COOKIE_BYTES],
)
    requires
        !s.rooms.contains_key(room),
        s.pending.contains_key((room, src.addr)),
        s.total_rooms < s.limits.max_rooms,
        rooms_of(s, ip_of(src.addr)).len() < s.limits.max_rooms_per_ip,
    ensures
        ({
            let p = s.pending[(room, src.addr)];
            let e = s.handle_reg(room, cookie_text(p.cookie@), src, now, fresh);
            &&& e.answer == Answer::Regd { room }
            &&& e.dropped is None
            &&& e.state.rooms.dom() == s.rooms.dom().insert(room)
            &&& e.state.rooms[room].clients.dom() == set![src.addr]
            &&& e.state.rooms[room].clients[src.addr].last_seen == now
            &&& e.state.rooms[room].clients[src.addr].resolved_addr == Some(p.resolved_addr)
            &&& e.state.rooms[room].pending.dom() == Set::<SocketAddr>::empty()
            &&& e.state.rooms[room].t == now
            &&& e.state.links == s.links.insert((ip_of(src.addr), room))
            &&& e.state.pending == s.pending.remove((room, src.addr))
            &&& e.state.total_rooms == s.total_rooms + 1
            &&& forall|x: Seq<char>| #[trigger]
                s.rooms.contains_key(x) ==> e.state.rooms[x] == s.rooms[x]
        }),
{
    let p = s.pending[(room, src.addr)];
    lemma_cookie_text(p.cookie@);
    lemma_rooms_of_ip(RelayView { pending: s.pending.remove((room, src.addr)), ..s }, ip_of(src.addr));
    assert(rooms_of(
        RelayView { pending: s.pending.remove((room, src.addr)), ..s },
        ip_of(src.addr),
    ) =~= rooms_of(s, ip_of(src.addr)));
    let e = s.handle_reg(room, cookie_text(p.cookie@), src, now, fresh);
    assert(e.state.rooms.dom() =~= s.rooms.dom().insert(room));
    assert(e.state.rooms[room].clients.dom() =~= set![src.addr]);
    assert(e.state.rooms[room].pending.dom() =~= Set::<SocketAddr>::empty());
}

/// A registration is counted against a budget: it is over it just when the
/// source has sent as many in its window as it may, or cannot be counted.
pub proof fn law_reg_budget(s: RelayView, src: SourceView, now: Instant)
    ensures
        s.reg_limited(src, now) == reg_budget_spent(s, src, now),
        ({
            let before = s.regs[RelayView::reg_shard(src)];
            let after = s.spend_reg(src, now).regs[RelayView::reg_shard(src)];
            let sent = if before.sent.contains_key(src.text) {
                before.sent[src.text]
            } else {
                0
            };
            0 <= RelayView::reg_shard(src) < s.regs.len() && !reg_budget_spent(s, src, now)
                && sent < u32::MAX ==> {
                &&& after.times.contains_key(src.text) && after.sent.contains_key(src.text)
                &&& if before.times.contains_key(src.text) && within(
                    before.times[src.text],
                    now,
                    s.limits.rate_window_ms as int,
                ) {
                    after.times[src.text] == before.times[src.text] && after.sent[src.text] == sent
                        + 1
                } else {
                    after.times[src.text] == now && after.sent[src.text] == 1
                }
            }
        }),
{
    lemma_spans(s, now);
}

/// What one source sends is not counted against another.
pub proof fn law_reg_budget_is_own(s: RelayView, src: SourceView, now: Instant, other: Seq<char>)
    requires
        other != src.text,
        0 <= RelayView::reg_shard(src) < s.regs.len(),
    ensures
        ({
            let before = s.regs[RelayView::reg_shard(src)];
            let after = s.spend_reg(src, now).regs[RelayView::reg_shard(src)];
            &&& after.times.contains_key(other) == before.times.contains_key(other)
            &&& after.sent.contains_key(other) == before.sent.contains_key(other)
            &&& before.times.contains_key(other) ==> after.times[other] == before.times[other]
            &&& before.sent.contains_key(other) ==> after.sent[other] == before.sent[other]
        }),
{
}

/// Whoever asks to be registered in a room that is there, within its budget, is
/// answered: an active client is confirmed, one that waits is sent its cookie
/// again, and a new one is challenged and waits from now on.
pub proof fn law_request_for_room_is_answered(
    s: RelayView,
    room: Seq<char>,
    src: SourceView,
    now: Instant,
    fresh: [u8; crate::room::PENDING_COOKIE_BYTES],
)
    requires
        s.rooms.contains_key(room),
        !reg_budget_spent(s, src, now),
        rooms_of(s, ip_of(src.addr)).len() < s.limits.max_rooms_per_ip,
        active(s, room, now).contains(src.addr) || active(s, room, now).len()
            < s.limits.max_clients_hard,
    ensures
        ({
            let e = s.handle_reg(room, Seq::empty(), src, now, fresh);
            let r2 = e.state.rooms[room];
            let ip = ip_of(src.addr);
            let waits = s.rooms[room].pending.contains_key(src.addr) && within(
                s.rooms[room].pending[src.addr].created_at,
                now,
                5_000,
            );
            if active(s, room, now).contains(src.addr) {
                &&& e.answer == Answer::Regd { room }
                &&& r2.clients.dom() == active(s, room, now)
                &&& r2.clients[src.addr].last_seen == now
                &&& r2.clients[src.addr].rate_limiter
                    == s.rooms[room].clients[src.addr].rate_limiter
            } else if waits {
                &&& e.answer == (Answer::Challenge {
                    room,
                    cookie: s.rooms[room].pending[src.addr].cookie,
                })
                &&& r2.pending.contains_key(src.addr)
                &&& r2.pending[src.addr].created_at == now
                &&& r2.pending[src.addr].cookie == s.rooms[room].pending[src.addr].cookie
            } else if waiting_in_store(s, ip).len() + waiting_in_room(s, room, ip, now).len()
                < s.limits.max_pending_per_ip {
                &&& e.answer == (Answer::Challenge { room, cookie: fresh })
                &&& r2.pending.contains_key(src.addr)
                &&& r2.pending[src.addr] == (PendingReg {
                    cookie: fresh,
                    created_at: now,
                    resolved_addr: src.addr,
                })
            } else {
                e.dropped == Some(DropReason::PendingLimitPerIp)
            }
        }),
{
    lemma_spans(s, now);
    law_reg_budget(s, src, now);
    let spent = s.spend_reg(src, now);
    let ip = ip_of(src.addr);
    lemma_rooms_of_ip(spent, ip);
    assert(rooms_of(spent, ip) =~= rooms_of(s, ip));
    lemma_swept_clients(spent, room, now);
    assert(active(spent, room, now) =~= active(s, room, now));
    let swept = spent.sweep_room(room, now);
    lemma_waiting(s, swept, room, ip, now);
    let e = s.handle_reg(room, Seq::empty(), src, now, fresh);
    if active(s, room, now).contains(src.addr) {
        assert(e.state.rooms[room].clients.dom() =~= active(s, room, now));
    }
}

proof fn lemma_waiting(s: RelayView, swept: RelayView, room: Seq<char>, ip: IpAddr, now: Instant)
    requires
        swept.pending == s.pending,
        swept.rooms[room].pending == crate::room::live_pending(s.rooms[room].pending, now),
    ensures
        crate::pending::count_pending(swept.pending.dom(), ip) == waiting_in_store(s, ip).len(),
        crate::room::count_for_ip(swept.rooms[room].pending.dom(), ip) == waiting_in_room(
            s,
            room,
            ip,
            now,
        ).len(),
{
    lemma_spans(s, now);
    assert(swept.pending.dom().filter(
        |k: (Seq<char>, SocketAddr)| crate::room::spec_ip_key(k.1) == ip,
    ) =~= waiting_in_store(s, ip));
    assert(swept.rooms[room].pending.dom().filter(
        |a: SocketAddr| crate::room::spec_ip_key(a) == ip,
    ) =~= waiting_in_room(s, room, ip, now));
}

/// Whoever asks to be registered in a room that is not there, within its
/// budget, is challenged, and waits with the cookie it is sent. So is one that
/// sends a cookie for such a room while it does not wait.
pub proof fn law_request_for_new_room_is_answered(
    s: RelayView,
    room: Seq<char>,
    cookie: Seq<u8>,
    src: SourceView,
    now: Instant,
    fresh: [u8; crate::room::PENDING_COOKIE_BYTES],
)
    requires
        !s.rooms.contains_key(room),
        cookie.len() == 0 || (exists|c: Seq<u8>|
            c.len() == 16 && #[trigger] cookie_text(c) == cookie) && !s.pending.contains_key(
            (room, src.addr),
        ),
        !reg_budget_spent(s, src, now),
        rooms_of(s, ip_of(src.addr)).len() < s.limits.max_rooms_per_ip,
        waiting_in_store(s, ip_of(src.addr)).len() < s.limits.max_pending_per_ip,
        s.pending.contains_key((room, src.addr)) || s.pending.dom().len()
            < s.limits.max_pending_global,
    ensures
        ({
            let e = s.handle_reg(room, cookie, src, now, fresh);
            &&& e.answer == (Answer::Challenge { room, cookie: fresh })
            &&& e.dropped is None
            &&& e.state.pending == s.pending.insert(
                (room, src.addr),
                PendingReg { cookie: fresh, created_at: now, resolved_addr: src.addr },
            )
            &&& e.state.rooms == s.rooms
            &&& e.state.links == s.links
        }),
{
    law_reg_budget(s, src, now);
    let spent = s.spend_reg(src, now);
    let ip = ip_of(src.addr);
    lemma_rooms_of_ip(spent, ip);
    assert(rooms_of(spent, ip) =~= rooms_of(s, ip));
    assert(spent.pending.dom().filter(
        |k: (Seq<char>, SocketAddr)| crate::room::spec_ip_key(k.1) == ip,
    ) =~= waiting_in_store(s, ip));
    if cookie.len() > 0 {
        let c = choose|c: Seq<u8>| c.len() == 16 && #[trigger] cookie_text(c) == cookie;
        lemma_cookie_text(c);
    }
}

/// The cause that a registration may be dropped for with a given reason; `s2`
/// is the state after it.
pub open spec fn reg_drop_cause(
    s: RelayView,
    s2: RelayView,
    room: Seq<char>,
    cookie: Seq<u8>,
    src: SourceView,
    now: Instant,
    reason: DropReason,
) -> bool {
    let ip = ip_of(src.addr);
    let key = (room, src.addr);
    let sent = crate::hex::spec_hex_decode(cookie);
    match reason {
        DropReason::HardCap(_) => {
            &&& s.rooms.contains_key(room)
            &&& active(s, room, now).len() >= s.limits.max_clients_hard
            &&& !active(s, room, now).contains(src.addr)
        },
        DropReason::RoomLimitPerIp(stage) => {
            &&& rooms_of(s2, ip).len() >= s.limits.max_rooms_per_ip
            &&& stage != Stage::Request && s2.rooms.contains_key(room) ==> forall|b: SocketAddr|
                #[trigger]
                active(s, room, now).contains(b) ==> ip_of(b) != ip
        },
        DropReason::PendingLimitPerIp => waiting_in_store(s, ip).len() + (if s.rooms.contains_key(
            room,
        ) {
            waiting_in_room(s, room, ip, now).len()
        } else {
            0
        }) >= s.limits.max_pending_per_ip,
        DropReason::PendingStoreFull => !s.pending.contains_key(key) && s.pending.dom().len()
            >= s.limits.max_pending_global,
        DropReason::MaxRooms => !s2.rooms.contains_key(room) && s2.total_rooms
            >= s.limits.max_rooms,
        DropReason::RateLimitedReg => reg_budget_spent(s, src, now),
        DropReason::InvalidCookie => cookie.len() > 0 && (cookie.len() != 32 || sent is None),
        DropReason::MismatchedCookieInStore => s.pending.contains_key(key) && sent != Some(
            s.pending[key].cookie@,
        ),
        DropReason::MismatchedCookieInRoom => {
            &&& s.rooms.contains_key(room)
            &&& !s.pending.contains_key(key)
            &&& s.rooms[room].pending.contains_key(src.addr) ==> sent != Some(
                s.rooms[room].pending[src.addr].cookie@,
            )
        },
        _ => false,
    }
}

/// A registration is dropped for no reason but its cause: because the room is
/// full, because the IP takes part in too many rooms or has too many
/// registrations waiting, because the relay is full, because the source sends
/// too many, or because its cookie is not the one it was sent.
pub proof fn law_reg_drops_have_a_cause(
    s: RelayView,
    room: Seq<char>,
    cookie: Seq<u8>,
    src: SourceView,
    now: Instant,
    fresh: [u8; crate::room::PENDING_COOKIE_BYTES],
)
    ensures
        ({
            let e = s.handle_reg(room, cookie, src, now, fresh);
            e.dropped is Some ==> reg_drop_cause(
                s,
                e.state,
                room,
                cookie,
                src,
                now,
                e.dropped->0,
            )
        }),
{
    let key = (room, src.addr);
    let spent = s.spend_reg(src, now);
    law_reg_budget(s, src, now);
    lemma_challenge_cause(s, spent, room, cookie, src, now, fresh);
    if cookie.len() == 0 {
        lemma_rooms_of_ip(spent, ip_of(src.addr));
        if s.rooms.contains_key(room) {
            lemma_join_cause(s, spent, room, cookie, src, now, fresh);
        }
    } else if s.pending.contains_key(key) {
        let s1 = RelayView { pending: s.pending.remove(key), ..s };
        lemma_complete_cause(s, s1, room, cookie, src, now, s.pending[key].resolved_addr);
    } else if s.rooms.contains_key(room) {
        lemma_enter_cause(
            s,
            s,
            room,
            cookie,
            src,
            now,
            s.rooms[room].pending[src.addr].resolved_addr,
            true,
        );
    }
}

proof fn lemma_challenge_cause(
    s: RelayView,
    t: RelayView,
    room: Seq<char>,
    cookie: Seq<u8>,
    src: SourceView,
    now: Instant,
    fresh: [u8; crate::room::PENDING_COOKIE_BYTES],
)
    requires
        t.limits == s.limits,
        t.links == s.links,
        t.pending == s.pending,
        t.rooms == s.rooms,
    ensures
        ({
            let e = t.challenge(room, src, now, fresh);
            e.dropped is Some && !s.rooms.contains_key(room) ==> reg_drop_cause(
                s,
                e.state,
                room,
                cookie,
                src,
                now,
                e.dropped->0,
            )
        }),
{
    let ip = ip_of(src.addr);
    let e = t.challenge(room, src, now, fresh);
    lemma_rooms_of_ip(t, ip);
    assert(rooms_of(e.state, ip) =~= rooms_of(t, ip));
    assert(t.pending.dom().filter(
        |k: (Seq<char>, SocketAddr)| crate::room::spec_ip_key(k.1) == ip,
    ) =~= waiting_in_store(s, ip));
}

proof fn lemma_join_cause(
    s: RelayView,
    t: RelayView,
    room: Seq<char>,
    cookie: Seq<u8>,
    src: SourceView,
    now: Instant,
    fresh: [u8; crate::room::PENDING_COOKIE_BYTES],
)
    requires
        s.rooms.contains_key(room),
        t.limits == s.limits,
        t.links == s.links,
        t.pending == s.pending,
        t.rooms == s.rooms,
    ensures
        ({
            let e = t.join(room, src, now, fresh);
            e.dropped is Some ==> reg_drop_cause(
                s,
                e.state,
                room,
                cookie,
                src,
                now,
                e.dropped->0,
            )
        }),
{
    lemma_swept_clients(t, room, now);
    assert(active(t, room, now) =~= active(s, room, now));
    lemma_waiting(s, t.sweep_room(room, now), room, ip_of(src.addr), now);
}

proof fn lemma_enter_cause(
    s: RelayView,
    t: RelayView,
    room: Seq<char>,
    cookie: Seq<u8>,
    src: SourceView,
    now: Instant,
    resolved: SocketAddr,
    in_room: bool,
)
    requires
        s.rooms.contains_key(room),
        t.limits == s.limits,
        active(t, room, now) == active(s, room, now),
    ensures
        ({
            let e = t.enter(room, src, now, resolved, in_room);
            e.dropped is Some ==> reg_drop_cause(
                s,
                e.state,
                room,
                cookie,
                src,
                now,
                e.dropped->0,
            )
        }),
{
    let ip = ip_of(src.addr);
    let e = t.enter(room, src, now, resolved, in_room);
    let swept = t.sweep_room(room, now);
    let r = swept.rooms[room];
    lemma_swept_clients(t, room, now);
    lemma_rooms_of_ip(swept, ip);
    if e.dropped matches Some(DropReason::RoomLimitPerIp(_)) {
        assert(e.state.links == swept.links);
        assert(rooms_of(e.state, ip) =~= rooms_of(swept, ip));
        assert forall|b: SocketAddr| #[trigger] active(s, room, now).contains(b) implies ip_of(b)
            != ip by {
            assert(r.clients.contains_key(b));
        }
    }
}

proof fn lemma_complete_cause(
    s: RelayView,
    t: RelayView,
    room: Seq<char>,
    cookie: Seq<u8>,
    src: SourceView,
    now: Instant,
    resolved: SocketAddr,
)
    requires
        t.limits == s.limits,
        t.rooms == s.rooms,
    ensures
        ({
            let e = t.complete(room, src, now, resolved);
            e.dropped is Some ==> reg_drop_cause(
                s,
                e.state,
                room,
                cookie,
                src,
                now,
                e.dropped->0,
            )
        }),
{
    let all = crate::model::all_shards();
    let full = t.total_rooms >= t.limits.max_rooms;
    let sw = if full {
        t.sweep_shards(all, now)
    } else {
        t
    };
    let ip = ip_of(src.addr);
    if sw.rooms.contains_key(room) {
        if full {
            lemma_active_swept(t, all, room, now);
        }
        assert(active(t, room, now) =~= active(s, room, now));
        lemma_enter_cause(s, sw, room, cookie, src, now, resolved, false);
    } else {
        let own = set![crate::rooms::shard_of(room)];
        let s2 = if sw.total_rooms >= sw.limits.max_rooms {
            sw.sweep_shards(own, now)
        } else {
            sw
        };
        let e = s2.create(room, src, now, resolved);
        assert(!s2.rooms.contains_key(room));
        lemma_rooms_of_ip(s2, ip);
        if e.dropped is Some {
            assert(e.state.links == s2.links);
            assert(rooms_of(e.state, ip) =~= rooms_of(s2, ip));
        }
    }
}

proof fn lemma_active_swept(s: RelayView, shards: Set<usize>, room: Seq<char>, now: Instant)
    requires
        s.sweep_shards(shards, now).rooms.contains_key(room),
    ensures
        s.rooms.contains_key(room),
        active(s.sweep_shards(shards, now), room, now) == active(s, room, now),
{
    lemma_spans(s, now);
    assert(active(s.sweep_shards(shards, now), room, now) =~= active(s, room, now));
}

/// A message of a client: it is passed on just when the client has budget left,
/// that is, sent fewer messages in its window than it may, or begins a new one.
/// Then it goes to all other clients whose address is known, as it is, and
/// takes one from the budget.
pub proof fn law_message_of_a_client(
    s: RelayView,
    room: Seq<char>,
    phase: crate::packet::Phase,
    body: Seq<u8>,
    src: SourceView,
    now: Instant,
)
    requires
        s.rooms.contains_key(room),
        s.rooms[room].clients.contains_key(src.addr),
    ensures
        ({
            let e = s.relay_msg(room, phase, body, src, now);
            let clients = s.rooms[room].clients;
            let lim = clients[src.addr].rate_limiter;
            let max = s.limits.max_msg_rate as u32;
            let same_window = within(lim.window_start, now, s.limits.rate_window_ms as int);
            let count: int = if same_window {
                lim.msg_count as int
            } else {
                0
            };
            let r2 = e.state.rooms[room];
            let lim2 = r2.clients[src.addr].rate_limiter;
            &&& r2.clients.dom() == clients.dom()
            &&& forall|b: SocketAddr| #[trigger]
                clients.contains_key(b) && b != src.addr ==> r2.clients[b] == clients[b]
            &&& r2.clients[src.addr].last_seen == clients[src.addr].last_seen
            &&& lim2.window_start == (if same_window {
                lim.window_start
            } else {
                now
            })
            &&& if count < max {
                &&& e.dropped is None
                &&& lim2.msg_count == count + 1
                &&& e.answer matches Answer::Relay { targets, phase: p, body: b } && p == phase
                    && b == body && (forall|x: SocketAddr| #[trigger]
                    targets.contains_key(x) <==> clients.contains_key(x) && x != src.addr
                        && clients[x].resolved_addr is Some) && (forall|x: SocketAddr| #[trigger]
                    targets.contains_key(x) ==> Some(targets[x]) == clients[x].resolved_addr)
            } else {
                &&& e.dropped == Some(DropReason::RateLimitedMsg)
                &&& e.answer is Nothing
                &&& lim2.msg_count == count
            }
            &&& e.state.links == s.links && e.state.pending == s.pending && e.state.total_rooms
                == s.total_rooms
        }),
{
    lemma_spans(s, now);
    let e = s.relay_msg(room, phase, body, src, now);
    assert(e.state.rooms[room].clients.dom() =~= s.rooms[room].clients.dom());
}

/// A message for a room that is not there, or of somebody who is not a client
/// of it, goes to nobody.
pub proof fn law_message_of_a_stranger(
    s: RelayView,
    room: Seq<char>,
    phase: crate::packet::Phase,
    body: Seq<u8>,
    src: SourceView,
    now: Instant,
)
    requires
        !s.rooms.contains_key(room) || !s.rooms[room].clients.contains_key(src.addr),
    ensures
        ({
            let e = s.relay_msg(room, phase, body, src, now);
            &&& e.answer is Nothing
            &&& e.dropped == Some(
                if s.rooms.contains_key(room) {
                    DropReason::MsgUnregistered
                } else {
                    DropReason::MsgUnknownRoom
                },
            )
            &&& e.state.rooms == s.rooms && e.state.links == s.links && e.state.pending
                == s.pending
        }),
{
}

/// A sweep of a room takes out the clients that were not seen for the lifetime
/// of a registration, and the registrations that wait for more than five
/// seconds, and nothing else. An IP loses its link to the room if its one
/// client there goes.
pub proof fn law_swept_room(s: RelayView, room: Seq<char>, now: Instant, ip: IpAddr)
    ensures
        ({
            let s2 = s.sweep_room(room, now);
            let r = s.rooms[room];
            let r2 = s2.rooms[room];
            &&& r2.clients.dom() == active(s, room, now)
            &&& forall|a: SocketAddr| #[trigger]
                r2.clients.contains_key(a) ==> r2.clients[a] == r.clients[a]
            &&& forall|a: SocketAddr| #[trigger]
                r2.pending.contains_key(a) <==> r.pending.contains_key(a) && within(
                    r.pending[a].created_at,
                    now,
                    5_000,
                )
            &&& forall|a: SocketAddr| #[trigger]
                r2.pending.contains_key(a) ==> r2.pending[a] == r.pending[a]
            &&& r2.t == r.t
            &&& s.links.contains((ip, room)) && !s2.links.contains((ip, room)) ==> exists|
                a: SocketAddr,
            |
                is_lone(r, a) && ip_of(a) == ip && !active(s, room, now).contains(a)
            &&& s.links.contains((ip, room)) && s2.links.contains((ip, room)) ==> forall|
                a: SocketAddr,
            |
                is_lone(r, a) && ip_of(a) == ip ==> active(s, room, now).contains(a)
            &&& forall|x: Seq<char>|
                x != room ==> (#[trigger] s2.links.contains((ip, x)) <==> s.links.contains((ip, x)))
            &&& s2.links.subset_of(s.links)
        }),
{
    lemma_spans(s, now);
    lemma_swept_clients(s, room, now);
    let s2 = s.sweep_room(room, now);
    let r = s.rooms[room];
    let ttl = s.limits.spec_reg_ttl();
    if s.links.contains((ip, room)) {
        if !s2.links.contains((ip, room)) {
            let a = choose|a: SocketAddr| #[trigger]
                crate::room::leaves_alone(r.clients, a, now, ttl) && crate::room::spec_ip_key(a)
                    == ip;
            assert(is_lone(r, a)) by {
                assert forall|b: SocketAddr| #[trigger]
                    r.clients.contains_key(b) && b != a implies ip_of(b) != ip_of(a) by {
                    assert(crate::room::spec_ip_key(b) != crate::room::spec_ip_key(a));
                }
            }
        } else {
            assert forall|a: SocketAddr|
                is_lone(r, a) && ip_of(a) == ip implies active(s, room, now).contains(a) by {
                if !active(s, room, now).contains(a) {
                    assert(crate::room::alone(r.clients, a)) by {
                        assert forall|b: SocketAddr| #[trigger]
                            r.clients.contains_key(b) && b != a implies crate::room::spec_ip_key(b)
                            != crate::room::spec_ip_key(a) by {
                            assert(ip_of(b) != ip_of(a));
                        }
                    }
                    assert(crate::room::leaves_alone(r.clients, a, now, ttl));
                }
            }
        }
    }
}

/// `a` is a client, and the only one of its IP.
pub open spec fn is_lone(r: RoomView, a: SocketAddr) -> bool {
    r.clients.contains_key(a) && forall|b: SocketAddr| #[trigger]
        r.clients.contains_key(b) && b != a ==> ip_of(b) != ip_of(a)
}

/// The periodic cleanup keeps a room just when it has a client that was seen
/// within the lifetime of a registration, or somebody was admitted in that
/// time; it keeps the registrations from before a room that wait for at most
/// five seconds; and the rooms are counted right after it.
pub proof fn law_cleanup_of_rooms(s: RelayView, now: Instant, room: Seq<char>)
    requires
        s.rooms.dom().finite(),
        s.total_rooms == s.rooms.dom().len(),
    ensures
        ({
            let s2 = crate::relay_state::rooms_cleaned(s, now);
            &&& s2.rooms.contains_key(room) <==> s.rooms.contains_key(room) && (active(
                s,
                room,
                now,
            ) != Set::<SocketAddr>::empty() || within(
                s.rooms[room].t,
                now,
                s.limits.reg_ttl_ms as int,
            ))
            &&& s2.rooms.contains_key(room) ==> s2.rooms[room].clients.dom() == active(
                s,
                room,
                now,
            ) && s2.rooms[room].t == s.rooms[room].t
            &&& forall|k: (Seq<char>, SocketAddr)| #[trigger]
                s2.pending.contains_key(k) <==> s.pending.contains_key(k) && within(
                    s.pending[k].created_at,
                    now,
                    5_000,
                )
            &&& forall|k: (Seq<char>, SocketAddr)| #[trigger]
                s2.pending.contains_key(k) ==> s2.pending[k] == s.pending[k]
            &&& s2.total_rooms == s2.rooms.dom().len()
        }),
{
    lemma_spans(s, now);
    let s2 = crate::relay_state::rooms_cleaned(s, now);
    let r = s.rooms[room];
    let q = crate::room::swept(r, now, s.limits.spec_reg_ttl());
    assert(crate::rooms::shard_of(room) < crate::room::NUM_SHARDS);
    assert(q.clients.dom() =~= active(s, room, now));
    if active(s, room, now) == Set::<SocketAddr>::empty() {
        assert(q.clients =~= Map::empty());
    } else {
        assert(q.clients != Map::<SocketAddr, UdpClient>::empty()) by {
            if q.clients == Map::<SocketAddr, UdpClient>::empty() {
                assert(q.clients.dom() =~= Set::empty());
            }
        }
    }
    if s2.rooms.contains_key(room) {
        assert(s2.rooms[room].clients.dom() =~= active(s, room, now));
    }
    lemma_count_swept(s, crate::model::all_shards(), now);
}

proof fn lemma_count_swept(s: RelayView, shards: Set<usize>, now: Instant)
    requires
        s.rooms.dom().finite(),
        s.total_rooms == s.rooms.dom().len(),
    ensures
        s.sweep_shards(shards, now).total_rooms == s.sweep_shards(shards, now).rooms.dom().len(),
        s.sweep_shards(shards, now).rooms.dom().finite(),
        s.sweep_shards(shards, now).rooms.dom().subset_of(s.rooms.dom()),
{
    let s2 = s.sweep_shards(shards, now);
    assert(s2.rooms.dom().subset_of(s.rooms.dom()));
    vstd::set_lib::lemma_set_subset_finite(s.rooms.dom(), s2.rooms.dom());
    vstd::set_lib::lemma_len_subset(s2.rooms.dom(), s.rooms.dom());
    let n = s.rooms.dom().len() - s2.rooms.dom().len();
    vstd::arithmetic::div_mod::lemma_small_mod(n as nat, (usize::MAX + 1) as nat);
}

/// A relay that is full makes place: if some room has no active client and
/// nobody was admitted to it lately, whoever sends back its cookie still gets a
/// room of its own.
pub proof fn law_full_relay_makes_place(
    s: RelayView,
    room: Seq<char>,
    src: SourceView,
    now: Instant,
    fresh: [u8; crate::room::PENDING_COOKIE_BYTES],
    unused: Seq<char>,
)
    requires
        s.rooms.dom().finite(),
        s.total_rooms == s.rooms.dom().len(),
        s.total_rooms <= s.limits.max_rooms,
        !s.rooms.contains_key(room),
        s.pending.contains_key((room, src.addr)),
        rooms_of(s, ip_of(src.addr)).finite(),
        rooms_of(s, ip_of(src.addr)).len() < s.limits.max_rooms_per_ip,
        s.rooms.contains_key(unused),
        active(s, unused, now) == Set::<SocketAddr>::empty(),
        !within(s.rooms[unused].t, now, s.limits.reg_ttl_ms as int),
    ensures
        ({
            let p = s.pending[(room, src.addr)];
            let e = s.handle_reg(room, cookie_text(p.cookie@), src, now, fresh);
            &&& e.answer == Answer::Regd { room }
            &&& e.state.rooms.contains_key(room)
            &&& e.state.rooms[room].clients.dom() == set![src.addr]
        }),
{
    let key = (room, src.addr);
    let p = s.pending[key];
    lemma_cookie_text(p.cookie@);
    let s1 = RelayView { pending: s.pending.remove(key), ..s };
    let all = crate::model::all_shards();
    let full = s1.total_rooms >= s1.limits.max_rooms;
    let sw = if full {
        s1.sweep_shards(all, now)
    } else {
        s1
    };
    lemma_count_swept(s1, all, now);
    law_cleanup_of_rooms(s1, now, unused);
    assert(active(s1, unused, now) =~= active(s, unused, now));
    let cleaned = crate::relay_state::rooms_cleaned(s1, now);
    assert(s1.sweep_shards(all, now).rooms == cleaned.rooms);
    if full {
        assert(!sw.rooms.dom().contains(unused));
        assert(sw.rooms.dom().subset_of(s.rooms.dom().remove(unused)));
        vstd::set_lib::lemma_len_subset(sw.rooms.dom(), s.rooms.dom().remove(unused));
        assert(sw.total_rooms < s.total_rooms);
    }
    assert(!sw.rooms.contains_key(room));
    lemma_fewer_rooms(s, sw, ip_of(src.addr));
    let e = s.handle_reg(room, cookie_text(p.cookie@), src, now, fresh);
    assert(e.state.rooms[room].clients.dom() =~= set![src.addr]);
}

/// A cleanup of the rate-limit tables forgets a source just when its window
/// began more than two windows ago (while there are not too many), and the last
/// drop of an IP when it is more than two seconds old.
pub proof fn law_cleanup_of_rates(s: RelayView, now: Instant, i: int, src: Seq<char>)
    requires
        0 <= i < s.regs.len(),
        s.regs[i].times.dom().finite(),
        s.regs[i].sent.dom().finite(),
        s.regs[i].times.dom().len() <= 100_000,
        s.regs[i].sent.dom().len() <= 100_000,
    ensures
        ({
            let s2 = crate::relay_state::rates_cleaned(s, now);
            let before = s.regs[i];
            let after = s2.regs[i];
            let old_window = before.times.contains_key(src) && !within(
                before.times[src],
                now,
                2 * s.limits.rate_window_ms,
            );
            &&& s2.regs.len() == s.regs.len()
            &&& after.times.contains_key(src) <==> before.times.contains_key(src) && !old_window
            &&& after.sent.contains_key(src) <==> before.sent.contains_key(src) && !old_window
            &&& after.times.contains_key(src) ==> after.times[src] == before.times[src]
            &&& after.sent.contains_key(src) ==> after.sent[src] == before.sent[src]
            &&& s2.drop_log.contains_key(src) <==> s.drop_log.contains_key(src) && within(
                s.drop_log[src],
                now,
                2_000,
            )
            &&& s2.drop_log.contains_key(src) ==> s2.drop_log[src] == s.drop_log[src]
            &&& s2.rooms == s.rooms && s2.links == s.links && s2.pending == s.pending
        }),
{
    lemma_spans(s, now);
    let before = s.regs[i];
    let max_age = crate::clock::Duration {
        nanos: (2 * s.limits.spec_rate_window().nanos) as u128,
    };
    let old_srcs = Set::new(
        |x: Seq<char>|
            before.times.contains_key(x) && crate::clock::elapsed(now, before.times[x])
                > max_age.nanos,
    );
    assert(before.times.remove_keys(old_srcs).dom().subset_of(before.times.dom()));
    assert(before.sent.remove_keys(old_srcs).dom().subset_of(before.sent.dom()));
    vstd::set_lib::lemma_len_subset(
        before.times.remove_keys(old_srcs).dom(),
        before.times.dom(),
    );
    vstd::set_lib::lemma_len_subset(before.sent.remove_keys(old_srcs).dom(), before.sent.dom());
}

/// A drop is logged just when none was logged for the IP within the last
/// second, and then that is remembered. A datagram that is not dropped changes
/// nothing about it.
pub open spec fn logged_right(s: RelayView, e: crate::model::Effect, src: SourceView, now: Instant)
    -> bool {
    let may = !s.drop_log.contains_key(src.ip_text) || now.nanos >= s.drop_log[src.ip_text].nanos
        + 1_000_000_000;
    &&& e.logged == (e.dropped is Some && may)
    &&& e.state.drop_log == (if e.logged {
        s.drop_log.insert(src.ip_text, now)
    } else {
        s.drop_log
    })
}

proof fn lemma_logged_reg(
    s: RelayView,
    room: Seq<char>,
    cookie: Seq<u8>,
    src: SourceView,
    now: Instant,
    fresh: [u8; crate::room::PENDING_COOKIE_BYTES],
)
    ensures
        logged_right(s, s.handle_reg(room, cookie, src, now, fresh), src, now),
{
    let spent = s.spend_reg(src, now);
    assert(logged_right(s, spent.challenge(room, src, now, fresh), src, now));
    if cookie.len() == 0 {
        assert(logged_right(s, spent.join(room, src, now, fresh), src, now));
    } else {
        let key = (room, src.addr);
        let s1 = RelayView { pending: s.pending.remove(key), ..s };
        assert(logged_right(
            s,
            s1.complete(room, src, now, s.pending[key].resolved_addr),
            src,
            now,
        ));
        assert(logged_right(
            s,
            s.enter(room, src, now, s.rooms[room].pending[src.addr].resolved_addr, true),
            src,
            now,
        ));
    }
}

/// Which drops are logged, whatever the datagram.
pub proof fn law_drops_logged(
    s: RelayView,
    data: Seq<u8>,
    src: SourceView,
    now: Instant,
    fresh: [u8; crate::room::PENDING_COOKIE_BYTES],
)
    ensures
        logged_right(s, s.handle_packet(data, src, now, fresh), src, now),
{
    match crate::packet::spec_parse_packet(data) {
        crate::packet::PacketView::Reg { room, cookie } => {
            lemma_logged_reg(s, crate::packet::ascii_chars(room), cookie, src, now, fresh);
        },
        crate::packet::PacketView::Msg(payload) => {
            assert(logged_right(s, s.handle_msg(payload, src, now), src, now));
        },
        _ => {},
    }
}

/// A datagram that is no registration and no message is dropped for what is
/// wrong with it, and so is a message that cannot be read.
pub proof fn law_unreadable_dropped(
    s: RelayView,
    data: Seq<u8>,
    src: SourceView,
    now: Instant,
    fresh: [u8; crate::room::PENDING_COOKIE_BYTES],
)
    ensures
        ({
            let e = s.handle_packet(data, src, now, fresh);
            match crate::packet::spec_parse_packet(data) {
                crate::packet::PacketView::Oversized => e.dropped == Some(DropReason::Oversized),
                crate::packet::PacketView::EmptyRoom => e.dropped == Some(DropReason::EmptyRoom),
                crate::packet::PacketView::InvalidRoom(_) => e.dropped == Some(
                    DropReason::InvalidRoom,
                ),
                crate::packet::PacketView::Unknown(_) => e.dropped == Some(DropReason::UnknownType),
                crate::packet::PacketView::Reg { .. } => true,
                crate::packet::PacketView::Msg(payload) => match crate::packet::spec_parse_msg(
                    payload,
                ) {
                    crate::packet::MessageView::Malformed => e.dropped == Some(
                        DropReason::MalformedMsg,
                    ),
                    crate::packet::MessageView::UnknownPhase { .. } => e.dropped == Some(
                        DropReason::MsgUnknownPhase,
                    ),
                    crate::packet::MessageView::InvalidRoom { .. } => e.dropped == Some(
                        DropReason::MsgInvalidRoom,
                    ),
                    crate::packet::MessageView::InvalidBody { .. } => e.dropped == Some(
                        DropReason::MsgInvalidBody,
                    ),
                    crate::packet::MessageView::Valid { .. } => true,
                },
            }
        }),
{
}

/// A datagram that is dropped before it is known what it asks for leaves the
/// rooms, the registrations that wait and the budgets as they were. It is
/// answered with nothing, and counted.
pub proof fn law_unreadable_changes_nothing(
    s: RelayView,
    data: Seq<u8>,
    src: SourceView,
    now: Instant,
    fresh: [u8; crate::room::PENDING_COOKIE_BYTES],
)
    requires
        ({
            let p = crate::packet::spec_parse_packet(data);
            p !is Reg && (p is Msg ==> crate::packet::spec_parse_msg(p->Msg_0) !is Valid)
        }),
    ensures
        ({
            let e = s.handle_packet(data, src, now, fresh);
            &&& e.dropped is Some
            &&& e.answer == Answer::Nothing
            &&& e.evicted == 0
            &&& e.state.rooms == s.rooms && e.state.pending == s.pending && e.state.links == s.links
                && e.state.regs == s.regs && e.state.total_rooms == s.total_rooms && e.state.limits
                == s.limits
            &&& e.state.stats.regs == s.stats.regs && e.state.stats.msgs == s.stats.msgs
            &&& s.stats.drops < usize::MAX ==> e.state.stats.drops == s.stats.drops + 1
        }),
{
}

/// What a relay sends, to the letter: to a client that is registered its own
/// address, to one that is challenged the cookie in hex, to the others of a
/// room the phase and the body of a message.
pub proof fn law_texts_of_a_relay(
    replies: Seq<crate::model::Reply>,
    room: Seq<char>,
    cookie: [u8; crate::room::PENDING_COOKIE_BYTES],
    src: SourceView,
)
    ensures
        crate::model::delivers(replies, Answer::Regd { room }, src) <==> replies.len() == 1
            && replies[0].to == src.addr && replies[0].text@ == "REGD "@ + room + " OK "@ + src.text
            + "\n"@,
        crate::model::delivers(replies, Answer::Challenge { room, cookie }, src) <==> replies.len()
            == 1 && replies[0].to == src.addr && replies[0].text@ == "REGD "@ + room + " "@
            + crate::hex::spec_to_hex(cookie@) + "\n"@,
        crate::model::delivers(replies, Answer::Nothing, src) <==> replies.len() == 0,
{
}

/// A message that is passed on goes to each target once, and nothing else is
/// sent.
pub proof fn law_messages_delivered(
    replies: Seq<crate::model::Reply>,
    targets: Map<SocketAddr, SocketAddr>,
    phase: crate::packet::Phase,
    body: Seq<u8>,
    src: SourceView,
    a: SocketAddr,
)
    requires
        crate::model::delivers(replies, Answer::Relay { targets, phase, body }, src),
    ensures
        targets.contains_key(a) ==> exists|i: int|
            0 <= i < replies.len() && (#[trigger] replies[i]).to == targets[a],
        replies.len() == targets.dom().len(),
        forall|i: int|
            0 <= i < replies.len() ==> (#[trigger] replies[i]).text@ == (if phase
                == crate::packet::Phase::Spake2 {
                "MSGD spake2 "@
            } else {
                "MSGD confirm "@
            }) + crate::packet::ascii_chars(body) + "\n"@,
        forall|i: int|
            0 <= i < replies.len() ==> targets.contains_value((#[trigger] replies[i]).to),
{
    reveal_strlit("MSGD ");
    reveal_strlit("spake2");
    reveal_strlit("confirm");
    reveal_strlit(" ");
    reveal_strlit("MSGD spake2 ");
    reveal_strlit("MSGD confirm ");
    assert("MSGD "@ + "spake2"@ + " "@ =~= "MSGD spake2 "@);
    assert("MSGD "@ + "confirm"@ + " "@ =~= "MSGD confirm "@);
    let text = crate::model::msgd_text(phase, body);
    let ks = choose|ks: Seq<SocketAddr>|
        #[trigger] crate::model::fans_out_along(replies, targets, text, ks);
    ks.unique_seq_to_set();
    if targets.contains_key(a) {
        assert(ks.to_set().contains(a));
        let i = ks.index_of(a);
        assert(ks[i] == a);
        assert(replies[i].to == targets[a]);
    }
    assert forall|i: int| 0 <= i < replies.len() implies targets.contains_value(
        (#[trigger] replies[i]).to,
    ) by {
        assert(ks.to_set().contains(ks[i]));
        assert(targets.contains_key(ks[i]));
    }
}

} // verus!
