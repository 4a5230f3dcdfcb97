//! What the rate limits of a relay come to over time.
use vstd::prelude::*;

use crate::clock::{elapsed, Duration, Instant};
use crate::model::{Effect, RelayView, SourceView};
use crate::room::{RateLimiter, RegShardView, PENDING_COOKIE_BYTES};

verus! {

/// How many of the messages that come at `times` pass.
pub open spec fn messages_passed(
    l: RateLimiter,
    times: Seq<Instant>,
    rate_window: Duration,
    max_rate: u32,
) -> nat
    decreases times.len(),
{
    if times.len() == 0 {
        0
    } else {
        let (next, passes) = l.spend(times[0], rate_window, max_rate);
        messages_passed(next, times.drop_first(), rate_window, max_rate) + if passes {
            1nat
        } else {
            0nat
        }
    }
}

/// All of `times` lie in a stretch as long as a window that begins with `from`.
pub open spec fn within_stretch(times: Seq<Instant>, from: Instant, rate_window: Duration) -> bool {
    forall|i: int|
        0 <= i < times.len() ==> from.nanos <= (#[trigger] times[i]).nanos <= from.nanos
            + rate_window.nanos
}

/// While no new window begins, no more messages pass than the budget has left.
pub proof fn law_window_budget(
    l: RateLimiter,
    times: Seq<Instant>,
    rate_window: Duration,
    max_rate: u32,
)
    requires
        l.msg_count <= max_rate,
        forall|i: int|
            0 <= i < times.len() ==> elapsed(#[trigger] times[i], l.window_start)
                <= rate_window.nanos,
    ensures
        messages_passed(l, times, rate_window, max_rate) <= max_rate - l.msg_count,
    decreases times.len(),
{
    if times.len() > 0 {
        let (next, passes) = l.spend(times[0], rate_window, max_rate);
        let rest = times.drop_first();
        assert(elapsed(times[0], l.window_start) <= rate_window.nanos);
        assert forall|i: int| 0 <= i < rest.len() implies elapsed(
            #[trigger] rest[i],
            next.window_start,
        ) <= rate_window.nanos by {
            assert(rest[i] == times[i + 1]);
        }
        law_window_budget(next, rest, rate_window, max_rate);
    }
}

/// In a stretch of time as long as a window, a client gets no more than twice
/// its budget of messages through, however it times them.
pub proof fn law_message_rate(
    l: RateLimiter,
    times: Seq<Instant>,
    from: Instant,
    rate_window: Duration,
    max_rate: u32,
)
    requires
        l.msg_count <= max_rate,
        within_stretch(times, from, rate_window),
    ensures
        messages_passed(l, times, rate_window, max_rate) <= 2 * max_rate - l.msg_count,
    decreases times.len(),
{
    if times.len() > 0 {
        let (next, passes) = l.spend(times[0], rate_window, max_rate);
        let rest = times.drop_first();
        assert forall|i: int| 0 <= i < rest.len() implies from.nanos <= (#[trigger] rest[i]).nanos
            <= from.nanos + rate_window.nanos by {
            assert(rest[i] == times[i + 1]);
        }
        if elapsed(times[0], l.window_start) > rate_window.nanos {
            assert(from.nanos <= times[0].nanos);
            assert forall|i: int| 0 <= i < rest.len() implies elapsed(
                #[trigger] rest[i],
                next.window_start,
            ) <= rate_window.nanos by {}
            law_window_budget(next, rest, rate_window, max_rate);
        } else {
            law_message_rate(next, rest, from, rate_window, max_rate);
        }
    }
}

/// How many of the registrations of `src` pass, among those that come from
/// various sources at various times.
pub open spec fn registrations_passed(
    shard: RegShardView,
    arrivals: Seq<(Seq<char>, Instant)>,
    src: Seq<char>,
    rate_window: Duration,
    max_rate: u32,
) -> nat
    decreases arrivals.len(),
{
    if arrivals.len() == 0 {
        0
    } else {
        let (from, now) = arrivals[0];
        registrations_passed(
            shard.after(from, now, rate_window, max_rate),
            arrivals.drop_first(),
            src,
            rate_window,
            max_rate,
        ) + if from == src && !shard.limits(from, now, rate_window, max_rate) {
            1nat
        } else {
            0nat
        }
    }
}

/// The registrations of `src` among the arrivals lie in a stretch as long as a
/// window that begins with `from`.
pub open spec fn source_within(
    arrivals: Seq<(Seq<char>, Instant)>,
    src: Seq<char>,
    from: Instant,
    rate_window: Duration,
) -> bool {
    forall|i: int|
        0 <= i < arrivals.len() && (#[trigger] arrivals[i]).0 == src ==> from.nanos
            <= arrivals[i].1.nanos <= from.nanos + rate_window.nanos
}

/// What a window has at least: its first registration always passes.
pub open spec fn reg_budget(max_rate: u32) -> int {
    if max_rate == 0 {
        1
    } else {
        max_rate as int
    }
}

proof fn lemma_registrations_in_window(
    shard: RegShardView,
    arrivals: Seq<(Seq<char>, Instant)>,
    src: Seq<char>,
    rate_window: Duration,
    max_rate: u32,
)
    requires
        shard.times.contains_key(src),
        shard.spent(src) <= reg_budget(max_rate),
        forall|i: int|
            0 <= i < arrivals.len() && (#[trigger] arrivals[i]).0 == src ==> elapsed(
                arrivals[i].1,
                shard.times[src],
            ) <= rate_window.nanos,
    ensures
        registrations_passed(shard, arrivals, src, rate_window, max_rate) <= reg_budget(max_rate)
            - shard.spent(src),
    decreases arrivals.len(),
{
    if arrivals.len() > 0 {
        let (from, now) = arrivals[0];
        let next = shard.after(from, now, rate_window, max_rate);
        let rest = arrivals.drop_first();
        if from == src {
            assert(arrivals[0].0 == src);
            assert(shard.in_window(src, now, rate_window));
        }
        assert(next.times.contains_key(src) && next.times[src] == shard.times[src]);
        assert forall|i: int| 0 <= i < rest.len() && (#[trigger] rest[i]).0 == src implies elapsed(
            rest[i].1,
            next.times[src],
        ) <= rate_window.nanos by {
            assert(rest[i] == arrivals[i + 1]);
        }
        lemma_registrations_in_window(next, rest, src, rate_window, max_rate);
    }
}

/// In a stretch of time as long as a window, a source gets no more than twice
/// its budget of registrations through, however it times them and whoever else
/// registers.
pub proof fn law_registration_rate(
    shard: RegShardView,
    arrivals: Seq<(Seq<char>, Instant)>,
    src: Seq<char>,
    from: Instant,
    rate_window: Duration,
    max_rate: u32,
)
    requires
        shard.spent(src) <= reg_budget(max_rate),
        source_within(arrivals, src, from, rate_window),
    ensures
        registrations_passed(shard, arrivals, src, rate_window, max_rate) <= 2 * reg_budget(
            max_rate,
        ) - if shard.times.contains_key(src) {
            shard.spent(src) as int
        } else {
            0
        },
    decreases arrivals.len(),
{
    if arrivals.len() > 0 {
        let (source, now) = arrivals[0];
        let next = shard.after(source, now, rate_window, max_rate);
        let rest = arrivals.drop_first();
        assert forall|i: int| 0 <= i < rest.len() && (#[trigger] rest[i]).0 == src implies from.nanos
            <= rest[i].1.nanos <= from.nanos + rate_window.nanos by {
            assert(rest[i] == arrivals[i + 1]);
        }
        if source == src && !shard.limits(src, now, rate_window, max_rate) && !shard.in_window(
            src,
            now,
            rate_window,
        ) {
            assert(arrivals[0].0 == src);
            assert(next.times[src] == now && next.spent(src) == 1);
            assert forall|i: int|
                0 <= i < rest.len() && (#[trigger] rest[i]).0 == src implies elapsed(
                rest[i].1,
                next.times[src],
            ) <= rate_window.nanos by {}
            lemma_registrations_in_window(next, rest, src, rate_window, max_rate);
        } else {
            law_registration_rate(next, rest, src, from, rate_window, max_rate);
        }
    }
}

/// A datagram that reaches a relay.
pub struct Arrival {
    pub data: Seq<u8>,
    pub src: SourceView,
    pub now: Instant,
    pub fresh: [u8; PENDING_COOKIE_BYTES],
}

/// What a relay does with a datagram.
pub open spec fn effect(s: RelayView, a: Arrival) -> Effect {
    s.handle_packet(a.data, a.src, a.now, a.fresh)
}

/// The relay after the first `n` datagrams.
pub open spec fn after_arrivals(s: RelayView, arrivals: Seq<Arrival>, n: int) -> RelayView
    decreases n,
{
    if n <= 0 {
        s
    } else {
        effect(after_arrivals(s, arrivals, n - 1), arrivals[n - 1]).state
    }
}

/// The drop of datagram `i` is logged.
pub open spec fn is_logged(s: RelayView, arrivals: Seq<Arrival>, i: int) -> bool {
    effect(after_arrivals(s, arrivals, i), arrivals[i]).logged
}

/// The times at which drops were logged follow from those before and from this
/// effect.
spec fn notes_log(s: RelayView, e: Effect, src: SourceView, now: Instant) -> bool {
    if e.logged {
        &&& crate::room::may_log(
            s.drop_log,
            src.ip_text,
            now,
            crate::model::drop_log_interval(),
        )
        &&& e.state.drop_log == s.drop_log.insert(src.ip_text, now)
    } else {
        e.state.drop_log == s.drop_log
    }
}

proof fn lemma_notes_complete(
    s: RelayView,
    room: Seq<char>,
    src: SourceView,
    now: Instant,
    resolved: crate::net::SocketAddr,
)
    ensures
        notes_log(s, s.complete(room, src, now, resolved), src, now),
{
}

proof fn lemma_notes_reg(
    s: RelayView,
    room: Seq<char>,
    cookie: Seq<u8>,
    src: SourceView,
    now: Instant,
    fresh: [u8; PENDING_COOKIE_BYTES],
)
    ensures
        notes_log(s, s.handle_reg(room, cookie, src, now, fresh), src, now),
{
    let spent = s.spend_reg(src, now);
    assert(notes_log(s, spent.challenge(room, src, now, fresh), src, now));
    if cookie.len() == 0 {
        assert(notes_log(s, spent.join(room, src, now, fresh), src, now));
        assert(notes_log(s, s.initial_reg(room, src, now, fresh), src, now));
    } else {
        let key = (room, src.addr);
        let s1 = RelayView { pending: s.pending.remove(key), ..s };
        lemma_notes_complete(s1, room, src, now, s.pending[key].resolved_addr);
        assert(notes_log(
            s,
            s.enter(room, src, now, s.rooms[room].pending[src.addr].resolved_addr, true),
            src,
            now,
        ));
        assert(notes_log(s, s.cookie_reg(room, cookie, src, now, fresh), src, now));
    }
}

proof fn lemma_notes_packet(s: RelayView, a: Arrival)
    ensures
        notes_log(s, effect(s, a), a.src, a.now),
{
    match crate::packet::spec_parse_packet(a.data) {
        crate::packet::PacketView::Reg { room, cookie } => {
            lemma_notes_reg(s, crate::packet::ascii_chars(room), cookie, a.src, a.now, a.fresh);
        },
        crate::packet::PacketView::Msg(payload) => {
            assert(notes_log(s, s.handle_msg(payload, a.src, a.now), a.src, a.now));
        },
        _ => {},
    }
}

/// Time does not run backwards.
pub open spec fn in_time_order(arrivals: Seq<Arrival>) -> bool {
    forall|i: int, j: int|
        0 <= i <= j < arrivals.len() ==> (#[trigger] arrivals[i]).now.nanos <= (
        #[trigger] arrivals[j]).now.nanos
}

proof fn lemma_log_kept(s: RelayView, arrivals: Seq<Arrival>, i: int, n: int)
    requires
        in_time_order(arrivals),
        0 <= i < n <= arrivals.len(),
        is_logged(s, arrivals, i),
    ensures
        ({
            let log = after_arrivals(s, arrivals, n).drop_log;
            let ip = arrivals[i].src.ip_text;
            log.contains_key(ip) && log[ip].nanos >= arrivals[i].now.nanos
        }),
    decreases n,
{
    lemma_notes_packet(after_arrivals(s, arrivals, n - 1), arrivals[n - 1]);
    if n - 1 > i {
        lemma_log_kept(s, arrivals, i, n - 1);
    }
}

/// Whatever a relay is sent, two drops that are logged for one IP lie at least
/// the interval apart.
pub proof fn law_drops_logged_apart(s: RelayView, arrivals: Seq<Arrival>, i: int, j: int)
    requires
        in_time_order(arrivals),
        0 <= i < j < arrivals.len(),
        arrivals[i].src.ip_text == arrivals[j].src.ip_text,
        is_logged(s, arrivals, i),
        is_logged(s, arrivals, j),
    ensures
        arrivals[j].now.nanos - arrivals[i].now.nanos >= crate::model::drop_log_interval().nanos,
{
    lemma_log_kept(s, arrivals, i, j);
    lemma_notes_packet(after_arrivals(s, arrivals, j), arrivals[j]);
}

} // verus!
