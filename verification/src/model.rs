//! What a relay holds and how a datagram changes it, over sets and maps.
use vstd::prelude::*;

use crate::clock::{Duration, Instant};
use crate::config::{Config, Limits};
use crate::net::{IpAddr, SocketAddr};
use crate::packet::Phase;
use crate::room::{PendingReg, RegShardView, RoomEntry, RoomView, UdpClient};

verus! {

/// Counters of what a relay has done.
#[derive(Clone, Copy, Debug, PartialEq, Eq, Default, Structural)]
pub struct StatsSnapshot {
    pub regs: usize,
    pub msgs: usize,
    pub drops: usize,
}

/// The step of a registration at which a limit was met.
#[derive(Clone, Copy, Debug, PartialEq, Eq, Structural)]
pub enum Stage {
    /// A REG without a cookie, or one whose registration is gone.
    Request,
    /// A cookie of a registration that waits in the room.
    Admission,
    /// A cookie of a registration from before the room.
    Completion,
}

/// Why a datagram was dropped.
#[derive(Clone, Copy, Debug, PartialEq, Eq, Structural)]
pub enum DropReason {
    Oversized,
    EmptyRoom,
    InvalidRoom,
    UnknownType,
    InvalidCookie,
    MismatchedCookieInStore,
    MismatchedCookieInRoom,
    RateLimitedReg,
    RoomLimitPerIp(Stage),
    PendingLimitPerIp,
    PendingStoreFull,
    HardCap(Stage),
    MaxRooms,
    MalformedMsg,
    MsgUnknownPhase,
    MsgInvalidRoom,
    MsgInvalidBody,
    MsgUnknownRoom,
    MsgUnregistered,
    RateLimitedMsg,
}

/// Where a datagram comes from: the address, its text, and the text of its
/// accounting key (the IP address, an IPv4-mapped one in IPv4 form).
pub struct Source {
    pub addr: SocketAddr,
    pub text: String,
    pub ip_text: String,
}

/// A [`Source`] by its contents.
pub struct SourceView {
    pub addr: SocketAddr,
    pub text: Seq<char>,
    pub ip_text: Seq<char>,
}

impl View for Source {
    type V = SourceView;

    open spec fn view(&self) -> SourceView {
        SourceView { addr: self.addr, text: self.text@, ip_text: self.ip_text@ }
    }
}

/// A datagram to send.
pub struct Reply {
    pub to: SocketAddr,
    pub text: String,
}

/// What came of a datagram: the replies to send, why it was dropped if it
/// was, whether that is to be logged, and how many rooms were evicted.
pub struct Outcome {
    pub replies: Vec<Reply>,
    pub dropped: Option<DropReason>,
    pub logged: bool,
    pub evicted: usize,
}

/// The answer that a datagram calls for.
pub enum Answer {
    Nothing,
    /// The sender is registered.
    Regd { room: Seq<char> },
    /// The sender has to send the cookie back.
    Challenge { room: Seq<char>, cookie: [u8; crate::room::PENDING_COOKIE_BYTES] },
    /// The message goes to the resolved address of each of these clients.
    Relay { targets: Map<SocketAddr, SocketAddr>, phase: Phase, body: Seq<u8> },
}

/// The answer that a reply to a REG for `room` gives.
pub open spec fn reg_answer(action: crate::room::RegAction, room: Seq<char>) -> Answer {
    match action {
        crate::room::RegAction::Regd => Answer::Regd { room },
        crate::room::RegAction::Challenge(cookie) => Answer::Challenge { room, cookie },
        crate::room::RegAction::Silent => Answer::Nothing,
    }
}

/// `REGD <room> OK <src>`.
pub open spec fn regd_text(room: Seq<char>, src: Seq<char>) -> Seq<char> {
    "REGD "@ + room + " OK "@ + src + "\n"@
}

/// `REGD <room> <cookie>`.
pub open spec fn challenge_text(room: Seq<char>, cookie: Seq<u8>) -> Seq<char> {
    "REGD "@ + room + " "@ + crate::hex::spec_to_hex(cookie) + "\n"@
}

/// `MSGD <phase> <body>`.
pub open spec fn msgd_text(phase: Phase, body: Seq<u8>) -> Seq<char> {
    "MSGD "@ + phase.spec_name() + " "@ + crate::packet::ascii_chars(body) + "\n"@
}

/// The replies are `text`, sent once for each key of `targets` to the address
/// there, in some order.
pub open spec fn is_fan_out(
    replies: Seq<Reply>,
    targets: Map<SocketAddr, SocketAddr>,
    text: Seq<char>,
) -> bool {
    exists|ks: Seq<SocketAddr>| #[trigger] fans_out_along(replies, targets, text, ks)
}

/// [`is_fan_out`] in the order `ks`.
pub open spec fn fans_out_along(
    replies: Seq<Reply>,
    targets: Map<SocketAddr, SocketAddr>,
    text: Seq<char>,
    ks: Seq<SocketAddr>,
) -> bool {
    &&& ks.no_duplicates()
    &&& ks.to_set() == targets.dom()
    &&& ks.len() == replies.len()
    &&& forall|i: int|
        0 <= i < replies.len() ==> (#[trigger] replies[i]).to == targets[ks[i]]
            && replies[i].text@ == text
}

/// The replies are the answer to `src`.
pub open spec fn delivers(replies: Seq<Reply>, a: Answer, src: SourceView) -> bool {
    match a {
        Answer::Nothing => replies.len() == 0,
        Answer::Regd { room } => replies.len() == 1 && replies[0].to == src.addr
            && replies[0].text@ == regd_text(room, src.text),
        Answer::Challenge { room, cookie } => replies.len() == 1 && replies[0].to == src.addr
            && replies[0].text@ == challenge_text(room, cookie@),
        Answer::Relay { targets, phase, body } => is_fan_out(
            replies,
            targets,
            msgd_text(phase, body),
        ),
    }
}

/// What a relay holds.
#[verifier::ext_equal]
pub struct RelayView {
    pub cfg: Config,
    pub limits: Limits,
    pub rooms: Map<Seq<char>, RoomView>,
    /// Which IPs take part in which rooms.
    pub links: Set<(IpAddr, Seq<char>)>,
    /// Registrations for rooms that do not exist yet.
    pub pending: Map<(Seq<char>, SocketAddr), PendingReg>,
    /// REG budgets, by shard.
    pub regs: Seq<RegShardView>,
    /// When a drop was last logged, by IP.
    pub drop_log: Map<Seq<char>, Instant>,
    pub total_rooms: usize,
    pub stats: StatsSnapshot,
}

/// What a datagram does: the state it leads to, and what comes out.
pub struct Effect {
    pub state: RelayView,
    pub dropped: Option<DropReason>,
    pub logged: bool,
    pub evicted: usize,
    pub answer: Answer,
}

/// At most one drop is logged for an IP in this time.
pub open spec fn drop_log_interval() -> Duration {
    crate::clock::spec_from_millis(1000)
}

/// The links that end when the stale clients of one room go.
pub open spec fn ended_in_room(
    room: Seq<char>,
    r: RoomView,
    now: Instant,
    reg_ttl: Duration,
) -> Set<(IpAddr, Seq<char>)> {
    Set::new(
        |l: (IpAddr, Seq<char>)|
            l.1 == room && crate::room::unlinked_ips(r.clients, now, reg_ttl).contains(l.0),
    )
}

impl Effect {
    /// The same, with `n` evicted rooms reported.
    pub open spec fn evicting(self, n: usize) -> Effect {
        Effect { evicted: n, ..self }
    }
}

impl RelayView {
    /// Number of rooms that an IP takes part in.
    pub open spec fn ip_rooms(self, ip: IpAddr) -> nat {
        crate::links::rooms_of_ip(self.links, ip).len()
    }

    /// The room without its stale clients and expired registrations, and the
    /// links without those that end with them.
    pub open spec fn sweep_room(self, room: Seq<char>, now: Instant) -> RelayView {
        let ttl = self.limits.spec_reg_ttl();
        RelayView {
            rooms: self.rooms.insert(room, crate::room::swept(self.rooms[room], now, ttl)),
            links: self.links.difference(ended_in_room(room, self.rooms[room], now, ttl)),
            ..self
        }
    }

    /// How many rooms a sweep of the rooms of some shards evicts.
    pub open spec fn evicted_in(self, shards: Set<usize>, now: Instant) -> usize {
        ((self.rooms.dom().len() - crate::rooms::swept_in(
            self.rooms,
            shards,
            now,
            self.limits.spec_reg_ttl(),
        ).dom().len()) % (usize::MAX + 1)) as usize
    }

    /// All rooms of some shards swept, and those that are left unused evicted.
    pub open spec fn sweep_shards(self, shards: Set<usize>, now: Instant) -> RelayView {
        let ttl = self.limits.spec_reg_ttl();
        RelayView {
            rooms: crate::rooms::swept_in(self.rooms, shards, now, ttl),
            links: self.links.difference(crate::rooms::ended_in(self.rooms, shards, now, ttl)),
            total_rooms: self.total_rooms.wrapping_sub(self.evicted_in(shards, now)),
            ..self
        }
    }

    /// A datagram that is answered.
    pub open spec fn answer(self, a: Answer) -> Effect {
        Effect { state: self, dropped: None, logged: false, evicted: 0, answer: a }
    }

    /// A datagram that is dropped.
    pub open spec fn drop_packet(self, src: SourceView, now: Instant, reason: DropReason)
        -> Effect {
        let logged = crate::room::may_log(self.drop_log, src.ip_text, now, drop_log_interval());
        Effect {
            state: RelayView {
                drop_log: if logged {
                    self.drop_log.insert(src.ip_text, now)
                } else {
                    self.drop_log
                },
                stats: StatsSnapshot { drops: self.stats.drops.wrapping_add(1), ..self.stats },
                ..self
            },
            dropped: Some(reason),
            logged,
            evicted: 0,
            answer: Answer::Nothing,
        }
    }

    /// The shard of REG budgets that a source belongs to.
    pub open spec fn reg_shard(src: SourceView) -> int {
        crate::room::spec_shard_idx(src.text, crate::room::NUM_REG_SHARDS) as int
    }

    /// The source is over its REG budget.
    pub open spec fn reg_limited(self, src: SourceView, now: Instant) -> bool {
        self.regs[Self::reg_shard(src)].limits(
            src.text,
            now,
            self.limits.spec_rate_window(),
            self.limits.max_reg_rate as u32,
        )
    }

    /// One REG of the source's budget spent.
    pub open spec fn spend_reg(self, src: SourceView, now: Instant) -> RelayView {
        let i = Self::reg_shard(src);
        RelayView {
            regs: self.regs.update(
                i,
                self.regs[i].after(
                    src.text,
                    now,
                    self.limits.spec_rate_window(),
                    self.limits.max_reg_rate as u32,
                ),
            ),
            ..self
        }
    }

    /// One more registration counted.
    pub open spec fn count_reg(self) -> RelayView {
        RelayView {
            stats: StatsSnapshot { regs: self.stats.regs.wrapping_add(1), ..self.stats },
            ..self
        }
    }

    /// A challenge with the cookie `fresh`, for a room that does not exist.
    pub open spec fn challenge(
        self,
        room: Seq<char>,
        src: SourceView,
        now: Instant,
        fresh: [u8; crate::room::PENDING_COOKIE_BYTES],
    ) -> Effect {
        let ip = crate::room::spec_ip_key(src.addr);
        if self.ip_rooms(ip) >= self.limits.max_rooms_per_ip {
            self.drop_packet(src, now, DropReason::RoomLimitPerIp(Stage::Request))
        } else if crate::pending::count_pending(self.pending.dom(), ip)
            >= self.limits.max_pending_per_ip {
            self.drop_packet(src, now, DropReason::PendingLimitPerIp)
        } else if !self.pending.contains_key((room, src.addr)) && self.pending.dom().len()
            >= self.limits.max_pending_global {
            self.drop_packet(src, now, DropReason::PendingStoreFull)
        } else {
            RelayView {
                pending: self.pending.insert(
                    (room, src.addr),
                    PendingReg { cookie: fresh, created_at: now, resolved_addr: src.addr },
                ),
                ..self
            }.answer(Answer::Challenge { room, cookie: fresh })
        }
    }

    /// A REG without a cookie for a room that exists: an admitted client is
    /// confirmed, a waiting one is challenged again with the same cookie, and
    /// a new one with `fresh`.
    pub open spec fn join(
        self,
        room: Seq<char>,
        src: SourceView,
        now: Instant,
        fresh: [u8; crate::room::PENDING_COOKIE_BYTES],
    ) -> Effect {
        let s = self.sweep_room(room, now);
        let r = s.rooms[room];
        let a = src.addr;
        let ip = crate::room::spec_ip_key(a);
        if r.clients.dom().len() >= s.limits.max_clients_hard && !r.clients.contains_key(a) {
            s.drop_packet(src, now, DropReason::HardCap(Stage::Request))
        } else if r.clients.contains_key(a) {
            let c = UdpClient { last_seen: now, resolved_addr: Some(a), ..r.clients[a] };
            RelayView {
                rooms: s.rooms.insert(room, RoomView { clients: r.clients.insert(a, c), ..r }),
                ..s
            }.count_reg().answer(Answer::Regd { room })
        } else if r.pending.contains_key(a) {
            let p = PendingReg { created_at: now, resolved_addr: a, ..r.pending[a] };
            RelayView {
                rooms: s.rooms.insert(room, RoomView { pending: r.pending.insert(a, p), ..r }),
                ..s
            }.answer(Answer::Challenge { room, cookie: p.cookie })
        } else if crate::pending::count_pending(s.pending.dom(), ip) + crate::room::count_for_ip(
            r.pending.dom(),
            ip,
        ) >= s.limits.max_pending_per_ip {
            s.drop_packet(src, now, DropReason::PendingLimitPerIp)
        } else {
            let p = PendingReg { cookie: fresh, created_at: now, resolved_addr: a };
            RelayView {
                rooms: s.rooms.insert(room, RoomView { pending: r.pending.insert(a, p), ..r }),
                ..s
            }.answer(Answer::Challenge { room, cookie: fresh })
        }
    }

    /// A REG without a cookie.
    pub open spec fn initial_reg(
        self,
        room: Seq<char>,
        src: SourceView,
        now: Instant,
        fresh: [u8; crate::room::PENDING_COOKIE_BYTES],
    ) -> Effect {
        let s = self.spend_reg(src, now);
        if self.reg_limited(src, now) {
            s.drop_packet(src, now, DropReason::RateLimitedReg)
        } else if s.ip_rooms(crate::room::spec_ip_key(src.addr)) >= s.limits.max_rooms_per_ip {
            s.drop_packet(src, now, DropReason::RoomLimitPerIp(Stage::Request))
        } else if s.rooms.contains_key(room) {
            s.join(room, src, now, fresh)
        } else {
            s.challenge(room, src, now, fresh)
        }
    }

    /// Admission to a room that exists, after a cookie was sent back. A
    /// registration that waited in the room itself (`in_room`) ends with it.
    pub open spec fn enter(
        self,
        room: Seq<char>,
        src: SourceView,
        now: Instant,
        resolved: SocketAddr,
        in_room: bool,
    ) -> Effect {
        let stage = if in_room {
            Stage::Admission
        } else {
            Stage::Completion
        };
        let s = self.sweep_room(room, now);
        let r = s.rooms[room];
        let a = src.addr;
        let ip = crate::room::spec_ip_key(a);
        if r.clients.dom().len() >= s.limits.max_clients_hard && !r.clients.contains_key(a) {
            s.drop_packet(src, now, DropReason::HardCap(stage))
        } else if !crate::room::ip_present(r.clients, ip, None) && s.ip_rooms(ip)
            >= s.limits.max_rooms_per_ip {
            s.drop_packet(src, now, DropReason::RoomLimitPerIp(stage))
        } else {
            let linked = if in_room {
                crate::room::ip_present(r.clients, ip, Some(a))
            } else {
                crate::room::ip_present(r.clients, ip, None)
            };
            RelayView {
                rooms: s.rooms.insert(
                    room,
                    RoomView {
                        clients: r.clients.insert(a, UdpClient::fresh(now, Some(resolved))),
                        pending: if in_room {
                            r.pending.remove(a)
                        } else {
                            r.pending
                        },
                        t: now,
                    },
                ),
                links: if linked {
                    s.links
                } else {
                    s.links.insert((ip, room))
                },
                ..s
            }.count_reg().answer(Answer::Regd { room })
        }
    }

    /// Creation of a room for its first client, after a cookie was sent back.
    pub open spec fn create(
        self,
        room: Seq<char>,
        src: SourceView,
        now: Instant,
        resolved: SocketAddr,
    ) -> Effect {
        let ip = crate::room::spec_ip_key(src.addr);
        if self.total_rooms >= self.limits.max_rooms {
            self.drop_packet(src, now, DropReason::MaxRooms)
        } else if self.ip_rooms(ip) >= self.limits.max_rooms_per_ip {
            self.drop_packet(src, now, DropReason::RoomLimitPerIp(Stage::Completion))
        } else {
            RelayView {
                rooms: self.rooms.insert(
                    room,
                    RoomView {
                        clients: Map::empty().insert(
                            src.addr,
                            UdpClient::fresh(now, Some(resolved)),
                        ),
                        pending: Map::empty(),
                        t: now,
                    },
                ),
                links: self.links.insert((ip, room)),
                total_rooms: self.total_rooms.wrapping_add(1),
                ..self
            }.count_reg().answer(Answer::Regd { room })
        }
    }

    /// A cookie of the store was sent back: the sender is admitted, and the
    /// room created if it does not exist. When the relay is full, rooms that
    /// nobody uses are evicted first.
    pub open spec fn complete(
        self,
        room: Seq<char>,
        src: SourceView,
        now: Instant,
        resolved: SocketAddr,
    ) -> Effect {
        let all = crate::model::all_shards();
        let full = self.total_rooms >= self.limits.max_rooms;
        let s = if full {
            self.sweep_shards(all, now)
        } else {
            self
        };
        let n = if full {
            self.evicted_in(all, now)
        } else {
            0
        };
        if s.rooms.contains_key(room) {
            s.enter(room, src, now, resolved, false).evicting(n)
        } else {
            let own = set![crate::rooms::shard_of(room)];
            let still_full = s.total_rooms >= s.limits.max_rooms;
            let s2 = if still_full {
                s.sweep_shards(own, now)
            } else {
                s
            };
            let n2 = if still_full {
                s.evicted_in(own, now)
            } else {
                0
            };
            s2.create(room, src, now, resolved).evicting(n.wrapping_add(n2))
        }
    }

    /// A REG that sends a cookie back.
    pub open spec fn cookie_reg(
        self,
        room: Seq<char>,
        cookie: Seq<u8>,
        src: SourceView,
        now: Instant,
        fresh: [u8; crate::room::PENDING_COOKIE_BYTES],
    ) -> Effect {
        let key = (room, src.addr);
        let bytes = crate::hex::spec_hex_decode(cookie);
        if bytes is None || cookie.len() != 2 * crate::room::PENDING_COOKIE_BYTES {
            self.drop_packet(src, now, DropReason::InvalidCookie)
        } else if self.pending.contains_key(key) {
            if self.pending[key].cookie@ != bytes->0 {
                self.drop_packet(src, now, DropReason::MismatchedCookieInStore)
            } else {
                RelayView { pending: self.pending.remove(key), ..self }.complete(
                    room,
                    src,
                    now,
                    self.pending[key].resolved_addr,
                )
            }
        } else if !self.rooms.contains_key(room) {
            let s = self.spend_reg(src, now);
            if self.reg_limited(src, now) {
                s.drop_packet(src, now, DropReason::RateLimitedReg)
            } else {
                s.challenge(room, src, now, fresh)
            }
        } else {
            let waiting = self.rooms[room].pending;
            if waiting.contains_key(src.addr) && waiting[src.addr].cookie@ == bytes->0 {
                self.enter(room, src, now, waiting[src.addr].resolved_addr, true)
            } else {
                self.drop_packet(src, now, DropReason::MismatchedCookieInRoom)
            }
        }
    }

    /// A REG.
    pub open spec fn handle_reg(
        self,
        room: Seq<char>,
        cookie: Seq<u8>,
        src: SourceView,
        now: Instant,
        fresh: [u8; crate::room::PENDING_COOKIE_BYTES],
    ) -> Effect {
        if cookie.len() == 0 {
            self.initial_reg(room, src, now, fresh)
        } else {
            self.cookie_reg(room, cookie, src, now, fresh)
        }
    }

    /// A valid message: it goes to the other clients of the room whose
    /// address is known.
    pub open spec fn relay_msg(
        self,
        room: Seq<char>,
        phase: Phase,
        body: Seq<u8>,
        src: SourceView,
        now: Instant,
    ) -> Effect {
        let a = src.addr;
        if !self.rooms.contains_key(room) {
            self.drop_packet(src, now, DropReason::MsgUnknownRoom)
        } else if !self.rooms[room].clients.contains_key(a) {
            self.drop_packet(src, now, DropReason::MsgUnregistered)
        } else {
            let r = self.rooms[room];
            let (lim, passes) = r.clients[a].rate_limiter.spend(
                now,
                self.limits.spec_rate_window(),
                self.limits.max_msg_rate as u32,
            );
            let clients = r.clients.insert(a, UdpClient { rate_limiter: lim, ..r.clients[a] });
            let s = RelayView { rooms: self.rooms.insert(room, RoomView { clients, ..r }), ..self };
            if !passes {
                s.drop_packet(src, now, DropReason::RateLimitedMsg)
            } else {
                let targets = other_targets(clients, a);
                RelayView {
                    stats: StatsSnapshot {
                        msgs: if targets == Map::<SocketAddr, SocketAddr>::empty() {
                            s.stats.msgs
                        } else {
                            s.stats.msgs.wrapping_add(1)
                        },
                        ..s.stats
                    },
                    ..s
                }.answer(Answer::Relay { targets, phase, body })
            }
        }
    }

    /// What follows `MSG `.
    pub open spec fn handle_msg(self, payload: Seq<u8>, src: SourceView, now: Instant) -> Effect {
        match crate::packet::spec_parse_msg(payload) {
            crate::packet::MessageView::Malformed => self.drop_packet(
                src,
                now,
                DropReason::MalformedMsg,
            ),
            crate::packet::MessageView::UnknownPhase { .. } => self.drop_packet(
                src,
                now,
                DropReason::MsgUnknownPhase,
            ),
            crate::packet::MessageView::InvalidRoom { .. } => self.drop_packet(
                src,
                now,
                DropReason::MsgInvalidRoom,
            ),
            crate::packet::MessageView::InvalidBody { .. } => self.drop_packet(
                src,
                now,
                DropReason::MsgInvalidBody,
            ),
            crate::packet::MessageView::Valid { room, phase, body } => self.relay_msg(
                crate::packet::ascii_chars(room),
                phase,
                body,
                src,
                now,
            ),
        }
    }

    /// A datagram from `src`; `fresh` is the cookie to use if one is needed.
    pub open spec fn handle_packet(
        self,
        data: Seq<u8>,
        src: SourceView,
        now: Instant,
        fresh: [u8; crate::room::PENDING_COOKIE_BYTES],
    ) -> Effect {
        match crate::packet::spec_parse_packet(data) {
            crate::packet::PacketView::Oversized => self.drop_packet(
                src,
                now,
                DropReason::Oversized,
            ),
            crate::packet::PacketView::EmptyRoom => self.drop_packet(
                src,
                now,
                DropReason::EmptyRoom,
            ),
            crate::packet::PacketView::InvalidRoom(_) => self.drop_packet(
                src,
                now,
                DropReason::InvalidRoom,
            ),
            crate::packet::PacketView::Reg { room, cookie } => self.handle_reg(
                crate::packet::ascii_chars(room),
                cookie,
                src,
                now,
                fresh,
            ),
            crate::packet::PacketView::Msg(payload) => self.handle_msg(payload, src, now),
            crate::packet::PacketView::Unknown(_) => self.drop_packet(
                src,
                now,
                DropReason::UnknownType,
            ),
        }
    }
}

/// The shards of the room table.
pub open spec fn all_shards() -> Set<usize> {
    Set::new(|i: usize| i < crate::room::NUM_SHARDS)
}

/// The clients other than `a` whose address is known, with that address.
pub open spec fn other_targets(clients: Map<SocketAddr, UdpClient>, a: SocketAddr) -> Map<
    SocketAddr,
    SocketAddr,
> {
    Map::new(
        |b: SocketAddr| clients.contains_key(b) && b != a && clients[b].resolved_addr is Some,
        |b: SocketAddr| clients[b].resolved_addr->0,
    )
}

/// There are replies just when there are targets.
pub proof fn lemma_fan_out_empty(
    replies: Seq<Reply>,
    targets: Map<SocketAddr, SocketAddr>,
    text: Seq<char>,
)
    requires
        is_fan_out(replies, targets, text),
    ensures
        (replies.len() == 0) == (targets == Map::<SocketAddr, SocketAddr>::empty()),
{
    let ks = choose|ks: Seq<SocketAddr>| #[trigger] fans_out_along(replies, targets, text, ks);
    if replies.len() == 0 {
        assert(targets =~= Map::empty());
    } else {
        assert(ks.to_set().contains(ks[0]));
        assert(targets.contains_key(ks[0]));
    }
}

impl RoomEntry {
    /// `text`, addressed to every client but `except` whose address is known.
    pub fn fan_out(&self, except: SocketAddr, text: &str) -> (replies: Vec<Reply>)
        requires
            self.wf(),
        ensures
            is_fan_out(replies@, other_targets(self@.clients, except), text@),
    {
        let ghost m = self@.clients;
        let ghost es = self.udp_clients.entries@;
        let ghost targets = other_targets(m, except);
        let ghost mut ks: Seq<SocketAddr> = Seq::empty();
        let mut replies: Vec<Reply> = Vec::new();
        let mut i: usize = 0;
        while i < self.udp_clients.entries.len()
            invariant
                self.wf(),
                m == self@.clients,
                es == self.udp_clients.entries@,
                targets == other_targets(m, except),
                i <= es.len(),
                ks.no_duplicates(),
                ks.len() == replies@.len(),
                forall|j: int|
                    0 <= j < ks.len() ==> targets.contains_key(#[trigger] ks[j]) && key_below(
                        es,
                        i as int,
                        ks[j],
                    ),
                forall|j: int|
                    0 <= j < replies@.len() ==> (#[trigger] replies@[j]).to == targets[ks[j]]
                        && replies@[j].text@ == text@,
                forall|j: int|
                    0 <= j < i && targets.contains_key((#[trigger] es[j]).0) ==> ks.contains(
                        es[j].0,
                    ),
            decreases es.len() - i,
        {
            let a: SocketAddr = self.udp_clients.entries[i].0;
            let to: Option<SocketAddr> = self.udp_clients.entries[i].1.resolved_addr;
            proof {
                crate::table::lemma_entry(es, i as int);
            }
            let ghost ks0 = ks;
            if a != except {
                if let Some(addr) = to {
                    replies.push(Reply { to: addr, text: text.to_owned() });
                    proof {
                        ks = ks.push(a);
                        if ks0.contains(a) {
                            let q = ks0.index_of(a);
                            assert(key_below(es, i as int, ks0[q]));
                            let k = choose|k: int| 0 <= k < i && (#[trigger] es[k]).0 == a;
                            assert(crate::table::keys_of(es)[k] == crate::table::keys_of(
                                es,
                            )[i as int]);
                        }
                        assert(ks[ks0.len() as int] == a);
                        assert forall|x: SocketAddr| ks0.contains(x) implies ks.contains(x) by {
                            let q = ks0.index_of(x);
                            assert(ks[q] == x);
                        }
                    }
                }
            }
            assert forall|j: int| 0 <= j < ks.len() implies targets.contains_key(#[trigger] ks[j])
                && key_below(es, i + 1, ks[j]) by {
                if j < ks0.len() {
                    assert(key_below(es, i as int, ks0[j]));
                } else {
                    assert(es[i as int].0 == ks[j]);
                }
            }
            i = i + 1;
        }
        proof {
            assert forall|x: SocketAddr| targets.contains_key(x) implies ks.contains(x) by {
                let q = crate::table::keys_of(es).index_of(x);
                assert(crate::table::keys_of(es)[q] == x);
                assert(es[q].0 == x);
            }
            assert(ks.to_set() =~= targets.dom());
            assert(fans_out_along(replies@, targets, text@, ks));
        }
        replies
    }
}

/// One of the first `i` clients of a list is `a`.
spec fn key_below(es: Seq<(SocketAddr, UdpClient)>, i: int, a: SocketAddr) -> bool {
    exists|k: int| 0 <= k < i && (#[trigger] es[k]).0 == a
}

} // verus!
