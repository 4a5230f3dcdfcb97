//! What holds of a relay whatever datagrams it is sent.
use vstd::prelude::*;

use crate::clock::{Duration, Instant};
use crate::model::{Answer, DropReason, Effect, RelayView, SourceView};
use crate::net::{IpAddr, SocketAddr};
use crate::room::RoomView;

verus! {

/// A room that keeps within the limits: no more clients than the hard cap, no
/// more waiting registrations of an IP than allowed, and every address that a
/// client or a registration is answered at is its own.
pub open spec fn room_sound(s: RelayView, room: Seq<char>, r: RoomView) -> bool {
    &&& r.clients.dom().finite()
    &&& r.pending.dom().finite()
    &&& r.clients.dom().len() <= s.limits.max_clients_hard
    &&& forall|ip: IpAddr| #[trigger]
        crate::room::count_for_ip(r.pending.dom(), ip) <= s.limits.max_pending_per_ip
    &&& forall|a: SocketAddr| #[trigger]
        r.clients.contains_key(a) ==> r.clients[a].resolved_addr == Some(a) && s.links.contains(
            (crate::room::spec_ip_key(a), room),
        )
    &&& forall|a: SocketAddr| #[trigger]
        r.pending.contains_key(a) ==> r.pending[a].resolved_addr == a
}

/// What every state of a relay satisfies: its rooms are sound, they are
/// counted right and not too many, no IP takes part in too many of them, and
/// the registrations from before a room are not too many, neither in all nor
/// of one IP.
pub open spec fn sound(s: RelayView) -> bool {
    &&& s.rooms.dom().finite()
    &&& s.total_rooms == s.rooms.dom().len()
    &&& s.total_rooms <= s.limits.max_rooms
    &&& forall|room: Seq<char>| #[trigger]
        s.rooms.contains_key(room) ==> room_sound(s, room, s.rooms[room])
    &&& forall|ip: IpAddr|
        #[trigger] ip_within(s, ip)
    &&& s.pending.dom().finite()
    &&& s.pending.dom().len() <= s.limits.max_pending_global
    &&& forall|ip: IpAddr| #[trigger]
        crate::pending::count_pending(s.pending.dom(), ip) <= s.limits.max_pending_per_ip
    &&& forall|k: (Seq<char>, SocketAddr)| #[trigger]
        s.pending.contains_key(k) ==> s.pending[k].resolved_addr == k.1
}

/// The IP takes part in no more rooms than it may.
pub open spec fn ip_within(s: RelayView, ip: IpAddr) -> bool {
    crate::links::rooms_of_ip(s.links, ip).finite() && s.ip_rooms(ip)
        <= s.limits.max_rooms_per_ip
}

/// The parts of a state that soundness speaks of.
spec fn same_tables(a: RelayView, b: RelayView) -> bool {
    &&& a.limits == b.limits
    &&& a.rooms == b.rooms
    &&& a.links == b.links
    &&& a.pending == b.pending
    &&& a.total_rooms == b.total_rooms
}

proof fn lemma_same_tables(a: RelayView, b: RelayView)
    requires
        sound(a),
        same_tables(a, b),
    ensures
        sound(b),
{
    assert forall|room: Seq<char>| #[trigger] b.rooms.contains_key(room) implies room_sound(
        b,
        room,
        b.rooms[room],
    ) by {
        assert(room_sound(a, room, a.rooms[room]));
    }
    assert forall|ip: IpAddr|
        #[trigger] ip_within(b, ip) by {
        assert(ip_within(a, ip));
    }
}

/// A new relay is sound.
pub proof fn law_initial_sound(s: RelayView)
    requires
        s.rooms == Map::<Seq<char>, RoomView>::empty(),
        s.links == Set::<(IpAddr, Seq<char>)>::empty(),
        s.pending == Map::<(Seq<char>, SocketAddr), crate::room::PendingReg>::empty(),
        s.total_rooms == 0,
    ensures
        sound(s),
{
    assert(s.rooms.dom() =~= Set::empty());
    assert(s.pending.dom() =~= Set::empty());
    assert forall|ip: IpAddr|
        #[trigger] ip_within(s, ip) by {
        assert(crate::links::rooms_of_ip(s.links, ip) =~= Set::empty());
    }
    assert forall|ip: IpAddr| #[trigger]
        crate::pending::count_pending(s.pending.dom(), ip) <= s.limits.max_pending_per_ip by {
        assert(s.pending.dom().filter(
            |k: (Seq<char>, SocketAddr)| crate::room::spec_ip_key(k.1) == ip,
        ) =~= Set::empty());
    }
}

proof fn lemma_filter_count(big: Set<SocketAddr>, small: Set<SocketAddr>)
    requires
        big.finite(),
        small.subset_of(big),
    ensures
        small.finite(),
        small.len() <= big.len(),
        forall|ip: IpAddr| #[trigger]
            crate::room::count_for_ip(small, ip) <= crate::room::count_for_ip(big, ip),
{
    vstd::set_lib::lemma_set_subset_finite(big, small);
    vstd::set_lib::lemma_len_subset(small, big);
    assert forall|ip: IpAddr| #[trigger]
        crate::room::count_for_ip(small, ip) <= crate::room::count_for_ip(big, ip) by {
        let f = |a: SocketAddr| crate::room::spec_ip_key(a) == ip;
        big.lemma_len_filter(f);
        vstd::set_lib::lemma_len_subset(small.filter(f), big.filter(f));
    }
}

/// A sweep keeps a room sound, over links that lose only those of IPs without
/// a client left.
proof fn lemma_swept_sound(
    s: RelayView,
    s2: RelayView,
    room: Seq<char>,
    now: Instant,
    ttl: Duration,
)
    requires
        s.rooms.contains_key(room),
        room_sound(s, room, s.rooms[room]),
        s2.limits == s.limits,
        forall|l: (IpAddr, Seq<char>)|
            s.links.contains(l) && l.1 == room && !crate::room::unlinked_ips(
                s.rooms[room].clients,
                now,
                ttl,
            ).contains(l.0) ==> #[trigger] s2.links.contains(l),
    ensures
        room_sound(s2, room, crate::room::swept(s.rooms[room], now, ttl)),
{
    let r = s.rooms[room];
    let q = crate::room::swept(r, now, ttl);
    lemma_filter_count(r.clients.dom(), q.clients.dom());
    lemma_filter_count(r.pending.dom(), q.pending.dom());
    assert forall|ip: IpAddr| #[trigger]
        crate::room::count_for_ip(q.pending.dom(), ip) <= s2.limits.max_pending_per_ip by {
        assert(crate::room::count_for_ip(r.pending.dom(), ip) <= s.limits.max_pending_per_ip);
    }
    assert forall|a: SocketAddr| #[trigger] q.clients.contains_key(a) implies
        q.clients[a].resolved_addr == Some(a) && s2.links.contains(
        (crate::room::spec_ip_key(a), room),
    ) by {
        assert(r.clients.contains_key(a));
        let ip = crate::room::spec_ip_key(a);
        assert(!crate::room::unlinked_ips(r.clients, now, ttl).contains(ip)) by {
            if crate::room::unlinked_ips(r.clients, now, ttl).contains(ip) {
                let b = choose|b: SocketAddr| #[trigger]
                    crate::room::leaves_alone(r.clients, b, now, ttl) && crate::room::spec_ip_key(b)
                        == ip;
                assert(r.clients.contains_key(a) && a != b);
            }
        }
        assert(s.links.contains((ip, room)));
    }
    assert forall|a: SocketAddr| #[trigger] q.pending.contains_key(a) implies q.pending[a].resolved_addr
        == a by {
        assert(r.pending.contains_key(a));
    }
}

/// Fewer links, fewer rooms of an IP.
proof fn lemma_links_shrink(s: RelayView, s2: RelayView)
    requires
        sound(s),
        s2.limits == s.limits,
        s2.links.subset_of(s.links),
    ensures
        forall|ip: IpAddr|
            #[trigger] ip_within(s2, ip),
{
    assert forall|ip: IpAddr|
        #[trigger] ip_within(s2, ip) by {
        let big = crate::links::rooms_of_ip(s.links, ip);
        let small = crate::links::rooms_of_ip(s2.links, ip);
        assert(ip_within(s, ip));
        vstd::set_lib::lemma_set_subset_finite(big, small);
        vstd::set_lib::lemma_len_subset(small, big);
    }
}

proof fn lemma_sweep_room(s: RelayView, room: Seq<char>, now: Instant)
    requires
        sound(s),
        s.rooms.contains_key(room),
    ensures
        sound(s.sweep_room(room, now)),
{
    let ttl = s.limits.spec_reg_ttl();
    let s2 = s.sweep_room(room, now);
    assert(s2.rooms.dom() =~= s.rooms.dom());
    lemma_swept_sound(s, s2, room, now, ttl);
    lemma_links_shrink(s, s2);
    assert forall|x: Seq<char>| #[trigger] s2.rooms.contains_key(x) implies room_sound(
        s2,
        x,
        s2.rooms[x],
    ) by {
        if x != room {
            assert(room_sound(s, x, s.rooms[x]));
        }
    }
}

proof fn lemma_sweep_shards(s: RelayView, shards: Set<usize>, now: Instant)
    requires
        sound(s),
    ensures
        sound(s.sweep_shards(shards, now)),
        s.sweep_shards(shards, now).total_rooms + s.evicted_in(shards, now) == s.total_rooms,
{
    let ttl = s.limits.spec_reg_ttl();
    let s2 = s.sweep_shards(shards, now);
    assert(s2.rooms.dom().subset_of(s.rooms.dom()));
    vstd::set_lib::lemma_set_subset_finite(s.rooms.dom(), s2.rooms.dom());
    vstd::set_lib::lemma_len_subset(s2.rooms.dom(), s.rooms.dom());
    let n = s.rooms.dom().len() - s2.rooms.dom().len();
    assert(0 <= n <= usize::MAX);
    vstd::arithmetic::div_mod::lemma_small_mod(n as nat, (usize::MAX + 1) as nat);
    lemma_links_shrink(s, s2);
    assert forall|x: Seq<char>| #[trigger] s2.rooms.contains_key(x) implies room_sound(
        s2,
        x,
        s2.rooms[x],
    ) by {
        assert(s.rooms.contains_key(x));
        assert(room_sound(s, x, s.rooms[x]));
        if shards.contains(crate::rooms::shard_of(x)) {
            lemma_swept_sound(s, s2, x, now, ttl);
        }
    }
}

/// A room replaced, over links that lose nothing, leaves a relay sound.
proof fn lemma_replace_room(s: RelayView, s2: RelayView, room: Seq<char>)
    requires
        sound(s),
        s.rooms.contains_key(room),
        s2.limits == s.limits,
        s2.rooms == s.rooms.insert(room, s2.rooms[room]),
        s2.pending == s.pending,
        s2.total_rooms == s.total_rooms,
        room_sound(s2, room, s2.rooms[room]),
        s.links.subset_of(s2.links),
        forall|ip: IpAddr|
            #[trigger] ip_within(s2, ip),
    ensures
        sound(s2),
{
    assert(s2.rooms.dom() =~= s.rooms.dom());
    assert forall|x: Seq<char>| #[trigger] s2.rooms.contains_key(x) implies room_sound(
        s2,
        x,
        s2.rooms[x],
    ) by {
        if x != room {
            assert(room_sound(s, x, s.rooms[x]));
        }
    }
}

/// Linking an IP that is linked already, or takes part in fewer rooms than
/// allowed, keeps every IP within its limit.
proof fn lemma_link(s: RelayView, s2: RelayView, ip: IpAddr, room: Seq<char>)
    requires
        sound(s),
        s2.limits == s.limits,
        s2.links == s.links.insert((ip, room)),
        s.links.contains((ip, room)) || s.ip_rooms(ip) < s.limits.max_rooms_per_ip,
    ensures
        forall|x: IpAddr|
            #[trigger] ip_within(s2, x),
{
    assert forall|x: IpAddr|
        #[trigger] ip_within(s2, x) by {
        assert(ip_within(s, x));
        let old_rooms = crate::links::rooms_of_ip(s.links, x);
        let new_rooms = crate::links::rooms_of_ip(s2.links, x);
        if x == ip {
            assert(new_rooms =~= old_rooms.insert(room));
            if s.links.contains((ip, room)) {
                assert(new_rooms =~= old_rooms);
            }
        } else {
            assert(new_rooms =~= old_rooms);
        }
    }
}

proof fn lemma_drop(s: RelayView, src: SourceView, now: Instant, reason: DropReason)
    requires
        sound(s),
    ensures
        sound(s.drop_packet(src, now, reason).state),
{
    lemma_same_tables(s, s.drop_packet(src, now, reason).state);
}

proof fn lemma_challenge(
    s: RelayView,
    room: Seq<char>,
    src: SourceView,
    now: Instant,
    fresh: [u8; crate::room::PENDING_COOKIE_BYTES],
)
    requires
        sound(s),
    ensures
        sound(s.challenge(room, src, now, fresh).state),
{
    let e = s.challenge(room, src, now, fresh);
    let s2 = e.state;
    if e.dropped is Some {
        lemma_same_tables(s, s2);
    } else {
        let k = (room, src.addr);
        let d = s.pending.dom();
        assert(s2.pending.dom() =~= d.insert(k));
        if d.contains(k) {
            assert(d.insert(k) =~= d);
        } else {
            crate::pending::lemma_count_pending_insert(d, k);
        }
        assert forall|ip: IpAddr| #[trigger]
            crate::pending::count_pending(s2.pending.dom(), ip)
                <= s2.limits.max_pending_per_ip by {
            assert(crate::pending::count_pending(d, ip) <= s.limits.max_pending_per_ip);
            assert(crate::pending::count_pending(d.insert(k), ip)
                == crate::pending::count_pending(s2.pending.dom(), ip));
        }
        assert forall|x: Seq<char>| #[trigger] s2.rooms.contains_key(x) implies room_sound(
            s2,
            x,
            s2.rooms[x],
        ) by {
            assert(room_sound(s, x, s.rooms[x]));
        }
        assert forall|ip: IpAddr| #[trigger] ip_within(s2, ip) by {
            assert(ip_within(s, ip));
        }
    }
}

proof fn lemma_join(
    s: RelayView,
    room: Seq<char>,
    src: SourceView,
    now: Instant,
    fresh: [u8; crate::room::PENDING_COOKIE_BYTES],
)
    requires
        sound(s),
        s.rooms.contains_key(room),
    ensures
        sound(s.join(room, src, now, fresh).state),
{
    let e = s.join(room, src, now, fresh);
    let s1 = s.sweep_room(room, now);
    let s2 = e.state;
    let a = src.addr;
    lemma_sweep_room(s, room, now);
    let r = s1.rooms[room];
    assert(s1.rooms.contains_key(room));
    assert(room_sound(s1, room, r));
    if e.dropped is Some {
        lemma_same_tables(s1, s2);
    } else {
        let r2 = s2.rooms[room];
        assert forall|ip: IpAddr| #[trigger] ip_within(s2, ip) by {
            assert(ip_within(s1, ip));
        }
        if r.clients.contains_key(a) {
            assert(r2.clients.dom() =~= r.clients.dom());
        } else if r.pending.contains_key(a) {
            assert(r2.pending.dom() =~= r.pending.dom());
        } else {
            assert(r2.pending.dom() =~= r.pending.dom().insert(a));
            crate::room::lemma_count_insert(r.pending.dom(), a);
            assert forall|ip: IpAddr| #[trigger]
                crate::room::count_for_ip(r2.pending.dom(), ip)
                    <= s2.limits.max_pending_per_ip by {
                assert(crate::room::count_for_ip(r.pending.dom(), ip)
                    <= s1.limits.max_pending_per_ip);
                assert(crate::room::count_for_ip(r.pending.dom().insert(a), ip)
                    == crate::room::count_for_ip(r2.pending.dom(), ip));
            }
        }
        assert(room_sound(s2, room, r2));
        lemma_replace_room(s1, s2, room);
    }
}

proof fn lemma_enter(
    s: RelayView,
    room: Seq<char>,
    src: SourceView,
    now: Instant,
    resolved: SocketAddr,
    in_room: bool,
)
    requires
        sound(s),
        s.rooms.contains_key(room),
        resolved == src.addr,
    ensures
        sound(s.enter(room, src, now, resolved, in_room).state),
{
    let e = s.enter(room, src, now, resolved, in_room);
    let s1 = s.sweep_room(room, now);
    let s2 = e.state;
    let a = src.addr;
    let ip = crate::room::spec_ip_key(a);
    lemma_sweep_room(s, room, now);
    let r = s1.rooms[room];
    assert(s1.rooms.contains_key(room));
    assert(room_sound(s1, room, r));
    if e.dropped is Some {
        lemma_same_tables(s1, s2);
    } else {
        let r2 = s2.rooms[room];
        assert(r2.clients.dom() =~= r.clients.dom().insert(a));
        if r.clients.contains_key(a) {
            assert(r2.clients.dom() =~= r.clients.dom());
        }
        if in_room {
            lemma_filter_count(r.pending.dom(), r2.pending.dom());
        }
        assert forall|i: IpAddr| #[trigger]
            crate::room::count_for_ip(r2.pending.dom(), i) <= s2.limits.max_pending_per_ip by {
            assert(crate::room::count_for_ip(r.pending.dom(), i)
                <= s1.limits.max_pending_per_ip);
        }
        if crate::room::ip_present(r.clients, ip, None) {
            let b = choose|b: SocketAddr| #[trigger]
                r.clients.contains_key(b) && Some(b) != None::<SocketAddr>
                    && crate::room::spec_ip_key(b) == ip;
            assert(s1.links.contains((ip, room)));
        }
        if crate::room::ip_present(r.clients, ip, Some(a)) {
            let b = choose|b: SocketAddr| #[trigger]
                r.clients.contains_key(b) && Some(b) != Some(a) && crate::room::spec_ip_key(b)
                    == ip;
            assert(s1.links.contains((ip, room)));
        }
        if s2.links == s1.links {
            assert forall|x: IpAddr| #[trigger] ip_within(s2, x) by {
                assert(ip_within(s1, x));
            }
        } else {
            lemma_link(s1, s2, ip, room);
        }
        assert(s2.links.contains((ip, room)));
        assert(room_sound(s2, room, r2));
        lemma_replace_room(s1, s2, room);
    }
}

proof fn lemma_create(
    s: RelayView,
    room: Seq<char>,
    src: SourceView,
    now: Instant,
    resolved: SocketAddr,
)
    requires
        sound(s),
        !s.rooms.contains_key(room),
        resolved == src.addr,
        s.limits.max_clients_hard > 0,
    ensures
        sound(s.create(room, src, now, resolved).state),
{
    let e = s.create(room, src, now, resolved);
    let s2 = e.state;
    let ip = crate::room::spec_ip_key(src.addr);
    if e.dropped is Some {
        lemma_same_tables(s, s2);
    } else {
        let r2 = s2.rooms[room];
        assert(r2.clients.dom() =~= Set::empty().insert(src.addr));
        assert(r2.pending.dom() =~= Set::empty());
        assert forall|i: IpAddr| #[trigger]
            crate::room::count_for_ip(r2.pending.dom(), i) <= s2.limits.max_pending_per_ip by {
            assert(r2.pending.dom().filter(|a: SocketAddr| crate::room::spec_ip_key(a) == i)
                =~= Set::empty());
        }
        assert(s2.rooms.dom() =~= s.rooms.dom().insert(room));
        lemma_link(s, s2, ip, room);
        assert(room_sound(s2, room, r2));
        assert forall|x: Seq<char>| #[trigger] s2.rooms.contains_key(x) implies room_sound(
            s2,
            x,
            s2.rooms[x],
        ) by {
            if x != room {
                assert(room_sound(s, x, s.rooms[x]));
            }
        }
    }
}

proof fn lemma_complete(
    s: RelayView,
    room: Seq<char>,
    src: SourceView,
    now: Instant,
    resolved: SocketAddr,
)
    requires
        sound(s),
        resolved == src.addr,
        s.limits.max_clients_hard > 0,
    ensures
        sound(s.complete(room, src, now, resolved).state),
{
    let all = crate::model::all_shards();
    let own = set![crate::rooms::shard_of(room)];
    let s1 = if s.total_rooms >= s.limits.max_rooms {
        s.sweep_shards(all, now)
    } else {
        s
    };
    lemma_sweep_shards(s, all, now);
    if s1.rooms.contains_key(room) {
        lemma_enter(s1, room, src, now, resolved, false);
    } else {
        let s2 = if s1.total_rooms >= s1.limits.max_rooms {
            s1.sweep_shards(own, now)
        } else {
            s1
        };
        lemma_sweep_shards(s1, own, now);
        lemma_create(s2, room, src, now, resolved);
    }
}

proof fn lemma_forget(s: RelayView, k: (Seq<char>, SocketAddr))
    requires
        sound(s),
        s.pending.contains_key(k),
    ensures
        sound(RelayView { pending: s.pending.remove(k), ..s }),
{
    let s2 = RelayView { pending: s.pending.remove(k), ..s };
    assert(s2.pending.dom() =~= s.pending.dom().remove(k));
    crate::pending::lemma_count_pending_remove(s.pending.dom(), k);
    assert forall|ip: IpAddr| #[trigger]
        crate::pending::count_pending(s2.pending.dom(), ip) <= s2.limits.max_pending_per_ip by {
        assert(crate::pending::count_pending(s.pending.dom(), ip) <= s.limits.max_pending_per_ip);
        assert(crate::pending::count_pending(s.pending.dom().remove(k), ip)
            == crate::pending::count_pending(s2.pending.dom(), ip));
    }
    assert forall|x: Seq<char>| #[trigger] s2.rooms.contains_key(x) implies room_sound(
        s2,
        x,
        s2.rooms[x],
    ) by {
        assert(room_sound(s, x, s.rooms[x]));
    }
    assert forall|ip: IpAddr| #[trigger] ip_within(s2, ip) by {
        assert(ip_within(s, ip));
    }
}

/// A REG keeps a relay sound, if a room may hold a client at all.
pub proof fn law_reg_keeps_sound(
    s: RelayView,
    room: Seq<char>,
    cookie: Seq<u8>,
    src: SourceView,
    now: Instant,
    fresh: [u8; crate::room::PENDING_COOKIE_BYTES],
)
    requires
        sound(s),
        s.limits.max_clients_hard > 0,
    ensures
        sound(s.handle_reg(room, cookie, src, now, fresh).state),
{
    let spent = s.spend_reg(src, now);
    lemma_same_tables(s, spent);
    lemma_challenge(spent, room, src, now, fresh);
    let key = (room, src.addr);
    if cookie.len() == 0 {
        let e = s.initial_reg(room, src, now, fresh);
        if spent.rooms.contains_key(room) {
            lemma_join(spent, room, src, now, fresh);
        }
        if e.dropped == Some(DropReason::RateLimitedReg) {
            lemma_same_tables(spent, spent.drop_packet(src, now, DropReason::RateLimitedReg).state);
        }
        lemma_drop(spent, src, now, DropReason::RateLimitedReg);
        lemma_drop(spent, src, now, DropReason::RoomLimitPerIp(crate::model::Stage::Request));
    } else {
        lemma_drop(s, src, now, DropReason::InvalidCookie);
        lemma_drop(s, src, now, DropReason::MismatchedCookieInStore);
        lemma_drop(s, src, now, DropReason::MismatchedCookieInRoom);
        lemma_drop(spent, src, now, DropReason::RateLimitedReg);
        if s.pending.contains_key(key) {
            lemma_forget(s, key);
            lemma_complete(
                RelayView { pending: s.pending.remove(key), ..s },
                room,
                src,
                now,
                s.pending[key].resolved_addr,
            );
        } else if s.rooms.contains_key(room) {
            let waiting = s.rooms[room].pending;
            assert(room_sound(s, room, s.rooms[room]));
            if waiting.contains_key(src.addr) {
                lemma_enter(s, room, src, now, waiting[src.addr].resolved_addr, true);
            }
        }
    }
}

/// A message keeps a relay sound.
pub proof fn law_msg_keeps_sound(s: RelayView, payload: Seq<u8>, src: SourceView, now: Instant)
    requires
        sound(s),
    ensures
        sound(s.handle_msg(payload, src, now).state),
{
    match crate::packet::spec_parse_msg(payload) {
        crate::packet::MessageView::Valid { room, phase, body } => {
            let name = crate::packet::ascii_chars(room);
            let e = s.relay_msg(name, phase, body, src, now);
            if s.rooms.contains_key(name) && s.rooms[name].clients.contains_key(src.addr) {
                let r = s.rooms[name];
                let s2 = e.state;
                assert(room_sound(s, name, r));
                let r2 = s2.rooms[name];
                assert(r2.clients.dom() =~= r.clients.dom());
                assert forall|ip: IpAddr| #[trigger] ip_within(s2, ip) by {
                    assert(ip_within(s, ip));
                }
                assert(room_sound(s2, name, r2));
                lemma_replace_room(s, s2, name);
            } else {
                lemma_same_tables(s, e.state);
            }
        },
        _ => {
            lemma_same_tables(s, s.handle_msg(payload, src, now).state);
        },
    }
}

/// Whatever a relay is sent, it stays within its limits: from a sound state a
/// datagram leads to a sound state.
pub proof fn law_packet_keeps_sound(
    s: RelayView,
    data: Seq<u8>,
    src: SourceView,
    now: Instant,
    fresh: [u8; crate::room::PENDING_COOKIE_BYTES],
)
    requires
        sound(s),
        s.limits.max_clients_hard > 0,
    ensures
        sound(s.handle_packet(data, src, now, fresh).state),
{
    match crate::packet::spec_parse_packet(data) {
        crate::packet::PacketView::Reg { room, cookie } => {
            law_reg_keeps_sound(s, crate::packet::ascii_chars(room), cookie, src, now, fresh);
        },
        crate::packet::PacketView::Msg(payload) => {
            law_msg_keeps_sound(s, payload, src, now);
        },
        _ => {
            lemma_same_tables(s, s.handle_packet(data, src, now, fresh).state);
        },
    }
}

/// A REG without a cookie never creates a room and never admits a client: a
/// source that cannot receive gains nothing but a waiting registration.
pub proof fn law_initial_reg_creates_nothing(
    s: RelayView,
    room: Seq<char>,
    src: SourceView,
    now: Instant,
    fresh: [u8; crate::room::PENDING_COOKIE_BYTES],
)
    ensures
        ({
            let s2 = s.handle_reg(room, Seq::empty(), src, now, fresh).state;
            &&& s2.rooms.dom() == s.rooms.dom()
            &&& s2.total_rooms == s.total_rooms
            &&& forall|x: Seq<char>, a: SocketAddr|
                s2.rooms.contains_key(x) && #[trigger] s2.rooms[x].clients.contains_key(a)
                    ==> s.rooms[x].clients.contains_key(a)
            &&& s2.links.subset_of(s.links)
        }),
{
    let s2 = s.handle_reg(room, Seq::empty(), src, now, fresh).state;
    assert(s2.rooms.dom() =~= s.rooms.dom());
}

/// A sender is told that it is registered only if it is a client of the room
/// already, or sends the very cookie that it was challenged with.
pub proof fn law_registration_needs_cookie(
    s: RelayView,
    room: Seq<char>,
    cookie: Seq<u8>,
    src: SourceView,
    now: Instant,
    fresh: [u8; crate::room::PENDING_COOKIE_BYTES],
)
    requires
        s.handle_reg(room, cookie, src, now, fresh).answer is Regd,
    ensures
        ({
            let sent = crate::hex::spec_hex_decode(cookie);
            let key = (room, src.addr);
            ||| cookie.len() == 0 && s.rooms.contains_key(room)
                && s.rooms[room].clients.contains_key(src.addr)
            ||| s.pending.contains_key(key) && sent == Some(s.pending[key].cookie@)
            ||| s.rooms.contains_key(room) && s.rooms[room].pending.contains_key(src.addr) && sent
                == Some(s.rooms[room].pending[src.addr].cookie@)
        }),
{
}

/// After it was told so, the sender is a client of the room.
pub proof fn law_registered_is_client(
    s: RelayView,
    room: Seq<char>,
    cookie: Seq<u8>,
    src: SourceView,
    now: Instant,
    fresh: [u8; crate::room::PENDING_COOKIE_BYTES],
)
    requires
        s.handle_reg(room, cookie, src, now, fresh).answer is Regd,
    ensures
        ({
            let s2 = s.handle_reg(room, cookie, src, now, fresh).state;
            &&& s2.rooms.contains_key(room)
            &&& s2.rooms[room].clients.contains_key(src.addr)
            &&& s2.rooms[room].clients[src.addr].last_seen == now
        }),
{
}

/// The cookie of a challenge is accepted: a sender that was challenged and
/// sends the cookie back is not turned away on its account. Left out is a
/// sender that waits both in the room and, from before the room, in the store.
pub proof fn law_challenge_can_be_answered(
    s: RelayView,
    room: Seq<char>,
    cookie: Seq<u8>,
    src: SourceView,
    now: Instant,
    fresh: [u8; crate::room::PENDING_COOKIE_BYTES],
    later: Instant,
    fresh2: [u8; crate::room::PENDING_COOKIE_BYTES],
)
    requires
        s.handle_reg(room, cookie, src, now, fresh).answer is Challenge,
        !(s.rooms.contains_key(room) && s.pending.contains_key((room, src.addr))),
    ensures
        ({
            let first = s.handle_reg(room, cookie, src, now, fresh);
            let c = crate::hex::spec_to_hex(first.answer->cookie@);
            let second = first.state.handle_reg(
                room,
                vstd::utf8::encode_utf8(c),
                src,
                later,
                fresh2,
            );
            &&& second.answer is Regd || second.dropped is Some
            &&& second.dropped != Some(DropReason::InvalidCookie)
            &&& second.dropped != Some(DropReason::MismatchedCookieInStore)
            &&& second.dropped != Some(DropReason::MismatchedCookieInRoom)
            &&& second.dropped != Some(DropReason::RateLimitedReg)
            &&& second.dropped != Some(DropReason::PendingLimitPerIp)
            &&& second.dropped != Some(DropReason::PendingStoreFull)
        }),
{
    let first = s.handle_reg(room, cookie, src, now, fresh);
    let b = first.answer->cookie@;
    crate::hex::law_hex_round_trip(b);
    let c = crate::hex::spec_to_hex(b);
    let e = vstd::utf8::encode_utf8(c);
    assert(e.len() == 2 * crate::room::PENDING_COOKIE_BYTES) by {
        assert(crate::hex::spec_hex_decode(e) == Some(b));
        assert(b.len() == crate::room::PENDING_COOKIE_BYTES);
        let d = crate::hex::spec_hex_decode(e)->0;
        assert(d.len() == e.len() / 2);
    }
    let key = (room, src.addr);
    let s2 = first.state;
    let r = s2.rooms[room];
    if s2.rooms.contains_key(room) {
        assert(!s2.pending.contains_key(key));
        assert(r.pending.contains_key(src.addr));
        assert(r.pending[src.addr].cookie == first.answer->cookie);
    } else {
        assert(s2.pending.contains_key(key));
        assert(s2.pending[key].cookie == first.answer->cookie);
    }
}

/// A message never comes back to its sender.
pub proof fn law_message_not_echoed(s: RelayView, payload: Seq<u8>, src: SourceView, now: Instant)
    requires
        sound(s),
    ensures
        ({
            let e = s.handle_msg(payload, src, now);
            e.answer matches Answer::Relay { targets, .. } ==> forall|b: SocketAddr| #[trigger]
                targets.contains_key(b) ==> targets[b] == b && b != src.addr
        }),
{
    let e = s.handle_msg(payload, src, now);
    if let Answer::Relay { targets, .. } = e.answer {
        let room = match crate::packet::spec_parse_msg(payload) {
            crate::packet::MessageView::Valid { room, .. } => crate::packet::ascii_chars(room),
            _ => Seq::empty(),
        };
        assert(room_sound(s, room, s.rooms[room]));
        assert forall|b: SocketAddr| #[trigger] targets.contains_key(b) implies targets[b] == b && b
            != src.addr by {
            assert(s.rooms[room].clients.contains_key(b));
        }
    }
}

/// Only a client of a room has a message passed on there, and it goes to the
/// clients of that room alone.
pub proof fn law_message_stays_in_room(
    s: RelayView,
    room: Seq<char>,
    phase: crate::packet::Phase,
    body: Seq<u8>,
    src: SourceView,
    now: Instant,
)
    ensures
        ({
            let e = s.relay_msg(room, phase, body, src, now);
            e.answer matches Answer::Relay { targets, .. } ==> s.rooms.contains_key(room)
                && s.rooms[room].clients.contains_key(src.addr) && targets.dom().subset_of(
                s.rooms[room].clients.dom(),
            )
        }),
{
}

/// A message of a client within its budget reaches every other client of the
/// room, and changes nothing but what the client spent.
pub proof fn law_message_reaches_others(
    s: RelayView,
    room: Seq<char>,
    phase: crate::packet::Phase,
    body: Seq<u8>,
    src: SourceView,
    now: Instant,
)
    requires
        sound(s),
        s.rooms.contains_key(room),
        s.rooms[room].clients.contains_key(src.addr),
        s.rooms[room].clients[src.addr].rate_limiter.spend(
            now,
            s.limits.spec_rate_window(),
            s.limits.max_msg_rate as u32,
        ).1,
    ensures
        ({
            let e = s.relay_msg(room, phase, body, src, now);
            let r = s.rooms[room];
            &&& e.dropped is None
            &&& e.answer matches Answer::Relay { targets, phase: p, body: b } && {
                &&& targets.dom() == r.clients.dom().remove(src.addr)
                &&& forall|x: SocketAddr| #[trigger] targets.contains_key(x) ==> targets[x] == x
                &&& p == phase
                &&& b == body
            }
            &&& e.state.rooms[room].clients.dom() == r.clients.dom()
            &&& e.state.pending == s.pending
            &&& e.state.links == s.links
        }),
{
    let r = s.rooms[room];
    assert(room_sound(s, room, r));
    let e = s.relay_msg(room, phase, body, src, now);
    assert(e.state.rooms[room].clients.dom() =~= r.clients.dom());
    if let Answer::Relay { targets, .. } = e.answer {
        assert(targets.dom() =~= r.clients.dom().remove(src.addr));
    }
}

/// The counters move as the effect says: one more drop, one more
/// registration, or one more message that went to somebody.
pub open spec fn counted(s: RelayView, e: Effect) -> bool {
    let st = e.state.stats;
    &&& st.drops == (if e.dropped is Some {
        s.stats.drops.wrapping_add(1)
    } else {
        s.stats.drops
    })
    &&& st.regs == (if e.answer is Regd {
        s.stats.regs.wrapping_add(1)
    } else {
        s.stats.regs
    })
    &&& st.msgs == (match e.answer {
        Answer::Relay { targets, .. } => if targets == Map::<SocketAddr, SocketAddr>::empty() {
            s.stats.msgs
        } else {
            s.stats.msgs.wrapping_add(1)
        },
        _ => s.stats.msgs,
    })
    &&& e.dropped is Some ==> e.answer is Nothing
}

proof fn lemma_counted_complete(
    s: RelayView,
    room: Seq<char>,
    src: SourceView,
    now: Instant,
    resolved: SocketAddr,
)
    ensures
        counted(s, s.complete(room, src, now, resolved)),
{
}

proof fn lemma_counted_reg(
    s: RelayView,
    room: Seq<char>,
    cookie: Seq<u8>,
    src: SourceView,
    now: Instant,
    fresh: [u8; crate::room::PENDING_COOKIE_BYTES],
)
    ensures
        counted(s, s.handle_reg(room, cookie, src, now, fresh)),
{
    let spent = s.spend_reg(src, now);
    assert(counted(s, spent.challenge(room, src, now, fresh)));
    if cookie.len() == 0 {
        assert(counted(s, spent.join(room, src, now, fresh)));
        assert(counted(s, s.initial_reg(room, src, now, fresh)));
    } else {
        let key = (room, src.addr);
        let s1 = RelayView { pending: s.pending.remove(key), ..s };
        lemma_counted_complete(s1, room, src, now, s.pending[key].resolved_addr);
        assert(counted(
            s,
            s.enter(room, src, now, s.rooms[room].pending[src.addr].resolved_addr, true),
        ));
        assert(counted(s, s.cookie_reg(room, cookie, src, now, fresh)));
    }
}

/// Every datagram is counted once: as a drop, as a registration, as a message
/// passed on to somebody, or not at all (a challenge, or a message without
/// anybody to pass it on to).
pub proof fn law_counters(
    s: RelayView,
    data: Seq<u8>,
    src: SourceView,
    now: Instant,
    fresh: [u8; crate::room::PENDING_COOKIE_BYTES],
)
    ensures
        counted(s, s.handle_packet(data, src, now, fresh)),
{
    match crate::packet::spec_parse_packet(data) {
        crate::packet::PacketView::Reg { room, cookie } => {
            lemma_counted_reg(s, crate::packet::ascii_chars(room), cookie, src, now, fresh);
        },
        crate::packet::PacketView::Msg(payload) => {
            assert(counted(s, s.handle_msg(payload, src, now)));
        },
        _ => {},
    }
}

/// A client that registers again keeps its place and what it spent of its
/// budget, and the age of the room is not changed by it.
pub proof fn law_reregistration(
    s: RelayView,
    room: Seq<char>,
    src: SourceView,
    now: Instant,
    fresh: [u8; crate::room::PENDING_COOKIE_BYTES],
)
    requires
        s.handle_reg(room, Seq::empty(), src, now, fresh).answer is Regd,
    ensures
        ({
            let r = s.rooms[room];
            let r2 = s.handle_reg(room, Seq::empty(), src, now, fresh).state.rooms[room];
            &&& s.rooms.contains_key(room)
            &&& r.clients.contains_key(src.addr)
            &&& r2.clients.contains_key(src.addr)
            &&& r2.clients[src.addr].rate_limiter == r.clients[src.addr].rate_limiter
            &&& r2.clients[src.addr].last_seen == now
            &&& r2.t == r.t
        }),
{
}

/// A client that was seen within the lifetime of a registration stays, and its
/// room with it, whatever is swept.
pub proof fn law_active_client_stays(
    s: RelayView,
    shards: Set<usize>,
    now: Instant,
    room: Seq<char>,
    a: SocketAddr,
)
    requires
        s.rooms.contains_key(room),
        s.rooms[room].clients.contains_key(a),
        !crate::room::is_stale(s.rooms[room].clients[a], now, s.limits.spec_reg_ttl()),
    ensures
        ({
            let s2 = s.sweep_shards(shards, now);
            &&& s2.rooms.contains_key(room)
            &&& s2.rooms[room].clients.contains_key(a)
            &&& s2.rooms[room].clients[a] == s.rooms[room].clients[a]
        }),
{
    let q = crate::room::swept(s.rooms[room], now, s.limits.spec_reg_ttl());
    assert(q.clients.contains_key(a));
}

/// A room that is swept away has no client that was seen within the lifetime
/// of a registration, and nobody was admitted to it in that time.
pub proof fn law_evicted_room_was_unused(
    s: RelayView,
    shards: Set<usize>,
    now: Instant,
    room: Seq<char>,
)
    requires
        s.rooms.contains_key(room),
        !s.sweep_shards(shards, now).rooms.contains_key(room),
    ensures
        crate::clock::elapsed(now, s.rooms[room].t) > s.limits.spec_reg_ttl().nanos,
        forall|a: SocketAddr| #[trigger]
            s.rooms[room].clients.contains_key(a) ==> crate::room::is_stale(
                s.rooms[room].clients[a],
                now,
                s.limits.spec_reg_ttl(),
            ),
{
    let ttl = s.limits.spec_reg_ttl();
    let q = crate::room::swept(s.rooms[room], now, ttl);
    assert forall|a: SocketAddr| #[trigger]
        s.rooms[room].clients.contains_key(a) implies crate::room::is_stale(
        s.rooms[room].clients[a],
        now,
        ttl,
    ) by {
        assert(!q.clients.contains_key(a));
    }
}

/// A message budget is never overspent: a count within the budget stays so.
pub proof fn law_message_budget(
    s: RelayView,
    room: Seq<char>,
    phase: crate::packet::Phase,
    body: Seq<u8>,
    src: SourceView,
    now: Instant,
)
    requires
        s.rooms.contains_key(room),
        s.rooms[room].clients.contains_key(src.addr),
        s.rooms[room].clients[src.addr].rate_limiter.msg_count <= s.limits.max_msg_rate as u32,
    ensures
        s.relay_msg(room, phase, body, src, now).state.rooms[room].clients[src.addr].rate_limiter.msg_count
            <= s.limits.max_msg_rate as u32,
{
}

/// The periodic cleanups keep a relay sound.
pub proof fn law_cleanup_keeps_sound(s: RelayView, now: Instant)
    requires
        sound(s),
    ensures
        sound(crate::relay_state::rooms_cleaned(s, now)),
        sound(crate::relay_state::rates_cleaned(s, now)),
{
    lemma_same_tables(s, crate::relay_state::rates_cleaned(s, now));
    let all = crate::model::all_shards();
    lemma_sweep_shards(s, all, now);
    let s1 = s.sweep_shards(all, now);
    let s2 = crate::relay_state::rooms_cleaned(s, now);
    let d1 = s1.pending.dom();
    let d2 = s2.pending.dom();
    assert(d2.subset_of(d1));
    vstd::set_lib::lemma_set_subset_finite(d1, d2);
    vstd::set_lib::lemma_len_subset(d2, d1);
    assert forall|ip: IpAddr| #[trigger]
        crate::pending::count_pending(d2, ip) <= s2.limits.max_pending_per_ip by {
        let f = |k: (Seq<char>, SocketAddr)| crate::room::spec_ip_key(k.1) == ip;
        assert(crate::pending::count_pending(d1, ip) <= s1.limits.max_pending_per_ip);
        d1.lemma_len_filter(f);
        vstd::set_lib::lemma_len_subset(d2.filter(f), d1.filter(f));
    }
    assert forall|x: Seq<char>| #[trigger] s2.rooms.contains_key(x) implies room_sound(
        s2,
        x,
        s2.rooms[x],
    ) by {
        assert(room_sound(s1, x, s1.rooms[x]));
    }
    assert forall|ip: IpAddr| #[trigger] ip_within(s2, ip) by {
        assert(ip_within(s1, ip));
    }
}

/// Neither a datagram nor a cleanup changes the configuration of a relay or the
/// limits that it keeps.
pub proof fn law_settings_stay(
    s: RelayView,
    data: Seq<u8>,
    src: SourceView,
    now: Instant,
    fresh: [u8; crate::room::PENDING_COOKIE_BYTES],
)
    ensures
        ({
            let after = s.handle_packet(data, src, now, fresh).state;
            after.cfg == s.cfg && after.limits == s.limits
        }),
        ({
            let after = crate::relay_state::rates_cleaned(s, now);
            after.cfg == s.cfg && after.limits == s.limits
        }),
        ({
            let after = crate::relay_state::rooms_cleaned(s, now);
            after.cfg == s.cfg && after.limits == s.limits
        }),
{
}

} // verus!
