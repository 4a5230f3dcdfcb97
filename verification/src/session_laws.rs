//! What holds of a whole exchange: whoever it ends with announced itself in a
//! datagram that was received, and was confirmed by another.
use vstd::prelude::*;

use crate::clock::{Duration, Instant};
use crate::exchange::{
    spec_parse_spake, spec_process_confirm, CheckedConfirm, ExchangeErrorView, SessionKeys,
    SpakeRoleView, SPAKE2_PAYLOAD_LEN,
};
use crate::packet::Phase;
use crate::session::{
    msg_text, reg_text, spec_strip_prefix, PeerView, ReceivedView, SessionView,
};

verus! {

/// A step of an exchange.
pub enum Event {
    /// What was due was sent.
    Sent { now: Instant },
    /// A datagram was received.
    Datagram { data: Seq<u8> },
    /// The keys of the announced peer were agreed on.
    Agreed { keys: SessionKeys, payload: Seq<u8>, now: Instant },
    /// The confirmation that came last was held against every candidate.
    Judged { checks: Seq<CheckedConfirm> },
}

impl SessionView {
    /// The session after a step.
    pub open spec fn step(self, e: Event) -> SessionView {
        match e {
            Event::Sent { now } => self.after_due(now),
            Event::Datagram { data } => self.receive(data).0,
            Event::Agreed { keys, payload, now } => self.agreed(keys, payload, now).0,
            Event::Judged { checks } => self.after_judging(checks),
        }
    }

    /// The session after some steps.
    pub open spec fn run(self, es: Seq<Event>) -> SessionView
        decreases es.len(),
    {
        if es.len() == 0 {
            self
        } else {
            self.run(es.drop_last()).step(es.last())
        }
    }
}

/// The announcement in a datagram, in hex.
pub open spec fn announcement_in(data: Seq<u8>) -> Option<Seq<char>> {
    let line = crate::room::spec_trim(data);
    match spec_strip_prefix(line, "REGD "@) {
        Some(_) => None,
        None => match spec_strip_prefix(line, "MSGD spake2 "@) {
            Some(b) => if vstd::utf8::valid_utf8(b) {
                Some(vstd::utf8::decode_utf8(b))
            } else {
                None
            },
            None => None,
        },
    }
}

/// The confirmation in a datagram, in hex.
pub open spec fn confirmation_in(data: Seq<u8>) -> Option<Seq<char>> {
    let line = crate::room::spec_trim(data);
    if spec_strip_prefix(line, "REGD "@) is Some || spec_strip_prefix(line, "MSGD spake2 "@) is Some {
        None
    } else {
        match spec_strip_prefix(line, "MSGD confirm "@) {
            Some(b) => if vstd::utf8::valid_utf8(b) {
                Some(vstd::utf8::decode_utf8(b))
            } else {
                None
            },
            None => None,
        }
    }
}

/// One of the steps received the confirmation `body`.
pub open spec fn was_confirmed(es: Seq<Event>, body: Seq<char>) -> bool {
    exists|k: int|
        0 <= k < es.len() && (#[trigger] es[k]) is Datagram && confirmation_in(es[k]->data)
            == Some(body)
}

/// An announcement gives the point M `key`, and is read as `role` by a peer
/// with the points `m` and `n`.
pub open spec fn announces(
    body: Seq<char>,
    m: Seq<u8>,
    n: Seq<u8>,
    key: Seq<u8>,
    role: SpakeRoleView,
) -> bool {
    let p = crate::hex::spec_hex_decode(vstd::utf8::encode_utf8(body));
    &&& p is Some && p->0.len() >= SPAKE2_PAYLOAD_LEN
    &&& key == p->0.subrange(0, 65)
    &&& spec_parse_spake(body, m, n) == Ok::<SpakeRoleView, ExchangeErrorView>(role)
}

/// One of the steps received the announcement `body`.
pub open spec fn was_received(es: Seq<Event>, body: Seq<char>) -> bool {
    exists|k: int|
        0 <= k < es.len() && (#[trigger] es[k]) is Datagram && announcement_in(es[k]->data)
            == Some(body)
}

/// One of the steps received an announcement of the point M `key` that is read
/// as `role`.
pub open spec fn was_announced(
    es: Seq<Event>,
    m: Seq<u8>,
    n: Seq<u8>,
    key: Seq<u8>,
    role: SpakeRoleView,
) -> bool {
    exists|body: Seq<char>| #[trigger] was_received(es, body) && announces(body, m, n, key, role)
}

/// A session in which nothing has been received.
pub open spec fn is_fresh(s: SessionView) -> bool {
    s.candidates.len() == 0 && s.announced is None && s.confirm is None && s.buffered.len() == 0
}

proof fn lemma_confirmed_before(es: Seq<Event>, body: Seq<char>)
    requires
        es.len() > 0,
        was_confirmed(es.drop_last(), body),
    ensures
        was_confirmed(es, body),
{
    let t = es.drop_last();
    let k = choose|k: int|
        0 <= k < t.len() && (#[trigger] t[k]) is Datagram && confirmation_in(t[k]->data) == Some(
            body,
        );
    assert(es[k] == t[k]);
}

proof fn lemma_received_before(es: Seq<Event>, body: Seq<char>)
    requires
        es.len() > 0,
        was_received(es.drop_last(), body),
    ensures
        was_received(es, body),
{
    let t = es.drop_last();
    let k = choose|k: int|
        0 <= k < t.len() && (#[trigger] t[k]) is Datagram && announcement_in(t[k]->data) == Some(
            body,
        );
    assert(es[k] == t[k]);
}

proof fn lemma_run(start: SessionView, es: Seq<Event>)
    requires
        is_fresh(start),
    ensures
        ({
            let s = start.run(es);
            &&& s.my_point_m == start.my_point_m
            &&& s.my_point_n == start.my_point_n
            &&& s.announced is Some ==> was_received(es, s.announced->0)
            &&& s.confirm is Some ==> was_confirmed(es, s.confirm->0)
            &&& forall|i: int|
                0 <= i < s.buffered.len() ==> was_confirmed(es, #[trigger] s.buffered[i])
            &&& forall|i: int|
                0 <= i < s.candidates.len() ==> was_announced(
                    es,
                    s.my_point_m,
                    s.my_point_n,
                    (#[trigger] s.candidates[i]).key,
                    s.candidates[i].role,
                )
        }),
    decreases es.len(),
{
    if es.len() > 0 {
        let t = es.drop_last();
        let s0 = start.run(t);
        let s = start.run(es);
        let m = start.my_point_m;
        let n = start.my_point_n;
        lemma_run(start, t);
        if s0.announced is Some {
            lemma_received_before(es, s0.announced->0);
        }
        if s0.confirm is Some {
            lemma_confirmed_before(es, s0.confirm->0);
        }
        assert forall|i: int| 0 <= i < s.buffered.len() implies was_confirmed(
            es,
            #[trigger] s.buffered[i],
        ) by {
            if i < s0.buffered.len() {
                assert(s.buffered[i] == s0.buffered[i]);
                lemma_confirmed_before(es, s0.buffered[i]);
            }
        }
        if es.last() is Datagram {
            let data = es.last()->data;
            let (s1, r) = s0.read(data);
            if r is Spake {
                assert(announcement_in(data) == Some(r->Spake_body));
                assert(es[es.len() - 1] is Datagram);
                assert(was_received(es, r->Spake_body));
            }
            if r is Confirm {
                assert(confirmation_in(data) == Some(r->Confirm_body));
                assert(es[es.len() - 1] is Datagram);
                assert(was_confirmed(es, r->Confirm_body));
            }
        }
        assert forall|i: int| 0 <= i < s.candidates.len() implies was_announced(
            es,
            m,
            n,
            (#[trigger] s.candidates[i]).key,
            s.candidates[i].role,
        ) by {
            let c = s.candidates[i];
            if i < s0.candidates.len() {
                let c0 = s0.candidates[i];
                assert(c.key == c0.key && c.role == c0.role);
                let body = choose|body: Seq<char>|
                    #[trigger] was_received(t, body) && announces(body, m, n, c0.key, c0.role);
                lemma_received_before(es, body);
            } else {
                assert(announces(s0.announced->0, m, n, c.key, c.role));
            }
        }
    }
}

/// Every candidate of a session announced itself: among the steps is one that
/// received an announcement of the candidate's point M, which is read as the
/// candidate's role.
pub proof fn law_candidates_were_announced(start: SessionView, es: Seq<Event>, i: int)
    requires
        is_fresh(start),
        0 <= i < start.run(es).candidates.len(),
    ensures
        was_announced(
            es,
            start.my_point_m,
            start.my_point_n,
            start.run(es).candidates[i].key,
            start.run(es).candidates[i].role,
        ),
{
    lemma_run(start, es);
}

/// The fingerprint and the role of a peer are those of an announcement that one
/// of the steps received.
pub open spec fn peer_was_announced(
    es: Seq<Event>,
    m: Seq<u8>,
    n: Seq<u8>,
    p: PeerView,
) -> bool {
    exists|key: Seq<u8>, role: SpakeRoleView| #[trigger]
        was_announced(es, m, n, key, role) && p.fingerprint == role.peer_fingerprint
            && p.is_server == role.is_server
}

/// One of the steps received a confirmation that checks out by one of `checks`
/// and gives the address of a peer.
pub open spec fn peer_was_confirmed(es: Seq<Event>, checks: Seq<CheckedConfirm>, p: PeerView)
    -> bool {
    exists|body: Seq<char>, i: int|
        #![trigger was_confirmed(es, body), checks[i]]
        was_confirmed(es, body) && 0 <= i < checks.len() && spec_process_confirm(body, checks[i])
            == Ok::<Seq<char>, ExchangeErrorView>(p.addr)
}

/// The peer that an exchange ends with sent an announcement and a confirmation
/// that were received: its certificate's fingerprint and its role are the ones
/// in the announcement, its address is the one in the confirmation, and the
/// confirmation checked out. That holds of one that came last and of one that
/// was kept.
pub proof fn law_peer_was_announced(
    start: SessionView,
    es: Seq<Event>,
    checks: Seq<CheckedConfirm>,
)
    requires
        is_fresh(start),
    ensures
        ({
            let s = start.run(es);
            let m = start.my_point_m;
            let n = start.my_point_n;
            &&& checks.len() == s.candidates.len() && s.judged(checks) is Some ==> {
                &&& peer_was_announced(es, m, n, s.judged(checks)->0)
                &&& peer_was_confirmed(es, checks, s.judged(checks)->0)
            }
            &&& s.candidates.len() > 0 && checks.len() == s.buffered.len() && s.judged_buffered(
                checks,
            ) is Some ==> {
                &&& peer_was_announced(es, m, n, s.judged_buffered(checks)->0)
                &&& peer_was_confirmed(es, checks, s.judged_buffered(checks)->0)
            }
        }),
{
    let s = start.run(es);
    let k = checks.len() as int;
    lemma_run(start, es);
    if k == s.candidates.len() && s.judged(checks) is Some {
        let body = s.confirm->0;
        lemma_first_match_found(s, body, checks, k);
        let i = s.first_match(body, checks, k)->0;
        let c = s.candidates[i];
        assert(was_announced(es, s.my_point_m, s.my_point_n, c.key, c.role));
        assert(was_confirmed(es, body));
        assert(spec_process_confirm(body, checks[i]) is Ok);
    }
    if s.candidates.len() > 0 && k == s.buffered.len() && s.judged_buffered(checks) is Some {
        let c = s.candidates[s.candidates.len() - 1];
        assert(was_announced(es, s.my_point_m, s.my_point_n, c.key, c.role));
        lemma_first_buffered_found(s, checks, k);
        let i = s.first_buffered(checks, k)->0;
        assert(was_confirmed(es, s.buffered[i]));
        assert(spec_process_confirm(s.buffered[i], checks[i]) is Ok);
    }
}

proof fn lemma_first_match_found(
    s: SessionView,
    body: Seq<char>,
    checks: Seq<CheckedConfirm>,
    k: int,
)
    ensures
        s.first_match(body, checks, k) matches Some(i) ==> 0 <= i < k && spec_process_confirm(
            body,
            checks[i],
        ) is Ok,
    decreases k,
{
    if k > 0 {
        lemma_first_match_found(s, body, checks, k - 1);
    }
}

proof fn lemma_first_buffered_found(s: SessionView, checks: Seq<CheckedConfirm>, k: int)
    ensures
        s.first_buffered(checks, k) matches Some(i) ==> 0 <= i < k && spec_process_confirm(
            s.buffered[i],
            checks[i],
        ) is Ok,
    decreases k,
{
    if k > 0 {
        lemma_first_buffered_found(s, checks, k - 1);
    }
}

/// `interval` has passed since `last`, or there was no `last`.
pub open spec fn has_passed(last: Option<Instant>, interval: Duration, now: Instant) -> bool {
    match last {
        None => true,
        Some(t) => now.nanos > t.nanos + interval.nanos,
    }
}

/// The announcement of a peer as it is sent: its points and its fingerprint in
/// hex, for its room.
pub open spec fn announcement_text(s: SessionView) -> Seq<char> {
    "MSG "@ + s.room + " spake2 "@ + crate::hex::spec_to_hex(
        s.my_point_m + s.my_point_n + s.my_fingerprint,
    ) + "\n"@
}

/// The registration of a peer as it is sent, with the cookie if there is one.
pub open spec fn registration_text(s: SessionView) -> Seq<char> {
    if s.pending_cookie.len() > 0 {
        "REG "@ + s.room + " "@ + s.pending_cookie + "\n"@
    } else {
        "REG "@ + s.room + "\n"@
    }
}

/// The confirmation for a candidate as it is sent.
pub open spec fn confirmation_text(s: SessionView, i: int) -> Seq<char> {
    "MSG "@ + s.room + " confirm "@ + crate::hex::spec_to_hex(s.candidates[i].confirm_payload)
        + "\n"@
}

proof fn lemma_texts(s: SessionView)
    ensures
        reg_text(s.room, s.pending_cookie) == registration_text(s),
        msg_text(
            s.room,
            Phase::Spake2,
            crate::exchange::announcement(s.my_point_m, s.my_point_n, s.my_fingerprint),
        ) == announcement_text(s),
        forall|i: int|
            msg_text(s.room, Phase::Confirm, (#[trigger] s.candidates[i]).confirm_payload)
                == confirmation_text(s, i),
{
    reveal_strlit(" ");
    reveal_strlit("spake2");
    reveal_strlit("confirm");
    reveal_strlit(" spake2 ");
    reveal_strlit(" confirm ");
    assert(" "@ + "spake2"@ + " "@ =~= " spake2 "@);
    assert(" "@ + "confirm"@ + " "@ =~= " confirm "@);
    let a = crate::exchange::announcement(s.my_point_m, s.my_point_n, s.my_fingerprint);
    assert(msg_text(s.room, Phase::Spake2, a) =~= announcement_text(s));
    assert forall|i: int|
        msg_text(s.room, Phase::Confirm, (#[trigger] s.candidates[i]).confirm_payload)
            == confirmation_text(s, i) by {
        assert(msg_text(s.room, Phase::Confirm, s.candidates[i].confirm_payload)
            =~= confirmation_text(s, i));
    }
}

proof fn lemma_due_confirms(s: SessionView, k: int, now: Instant)
    requires
        0 <= k <= s.candidates.len(),
    ensures
        forall|i: int|
            0 <= i < k && has_passed(
                Some((#[trigger] s.candidates[i]).last_sent),
                s.timing.confirm_resend,
                now,
            ) ==> s.due_confirms(k, now).contains(confirmation_text(s, i)),
        forall|x: Seq<char>| #[trigger]
            s.due_confirms(k, now).contains(x) ==> exists|i: int|
                0 <= i < k && x == confirmation_text(s, i) && has_passed(
                    Some((#[trigger] s.candidates[i]).last_sent),
                    s.timing.confirm_resend,
                    now,
                ),
    decreases k,
{
    if k > 0 {
        lemma_due_confirms(s, k - 1, now);
        lemma_texts(s);
        let before = s.due_confirms(k - 1, now);
        let all = s.due_confirms(k, now);
        let c = s.candidates[k - 1];
        let x = confirmation_text(s, k - 1);
        let due = has_passed(Some(c.last_sent), s.timing.confirm_resend, now);
        if due {
            assert(all == before.push(x));
            assert(all[before.len() as int] == x);
        }
        assert forall|i: int|
            0 <= i < k && has_passed(
                Some((#[trigger] s.candidates[i]).last_sent),
                s.timing.confirm_resend,
                now,
            ) implies all.contains(confirmation_text(s, i)) by {
            if i < k - 1 {
                let j = before.index_of(confirmation_text(s, i));
                assert(all[j] == before[j]);
            }
        }
        assert forall|y: Seq<char>| #[trigger] all.contains(y) implies exists|i: int|
            0 <= i < k && y == confirmation_text(s, i) && has_passed(
                Some((#[trigger] s.candidates[i]).last_sent),
                s.timing.confirm_resend,
                now,
            ) by {
            let j = all.index_of(y);
            if j < before.len() {
                assert(before[j] == y);
                assert(before.contains(y));
                let i = choose|i: int|
                    0 <= i < k - 1 && y == confirmation_text(s, i) && has_passed(
                        Some((#[trigger] s.candidates[i]).last_sent),
                        s.timing.confirm_resend,
                        now,
                    );
                assert(s.candidates[i].last_sent == s.candidates[i].last_sent);
            } else {
                assert(s.candidates[k - 1] == c);
            }
        }
    }
}

/// What a peer sends, and when: it registers at first and again after each
/// interval; once registered it announces itself at once and again after each
/// interval, whether it has heard of a peer or not; it sends every candidate its
/// confirmation again after each interval. Nothing else is sent.
pub proof fn law_what_is_due(s: SessionView, now: Instant)
    ensures
        has_passed(s.last_reg_sent, s.timing.reg_interval, now) ==> s.due(now).contains(
            registration_text(s),
        ),
        s.registered && has_passed(s.last_spake2_sent, s.timing.spake2_resend, now) ==> s.due(
            now,
        ).contains(announcement_text(s)),
        forall|i: int|
            0 <= i < s.candidates.len() && has_passed(
                Some((#[trigger] s.candidates[i]).last_sent),
                s.timing.confirm_resend,
                now,
            ) ==> s.due(now).contains(confirmation_text(s, i)),
        forall|x: Seq<char>| #[trigger]
            s.due(now).contains(x) ==> {
                ||| x == registration_text(s) && has_passed(
                    s.last_reg_sent,
                    s.timing.reg_interval,
                    now,
                )
                ||| x == announcement_text(s) && s.registered && has_passed(
                    s.last_spake2_sent,
                    s.timing.spake2_resend,
                    now,
                )
                ||| exists|i: int|
                    0 <= i < s.candidates.len() && x == confirmation_text(s, i) && has_passed(
                        Some((#[trigger] s.candidates[i]).last_sent),
                        s.timing.confirm_resend,
                        now,
                    )
            },
{
    lemma_texts(s);
    let n = s.candidates.len() as int;
    lemma_due_confirms(s, n, now);
    let a = s.due_reg(now);
    let b = s.due_spake(now);
    let c = s.due_confirms(n, now);
    let all = s.due(now);
    if has_passed(s.last_reg_sent, s.timing.reg_interval, now) {
        assert(all[0] == registration_text(s));
    }
    if s.registered && has_passed(s.last_spake2_sent, s.timing.spake2_resend, now) {
        assert(all[a.len() as int] == announcement_text(s));
    }
    assert forall|i: int|
        0 <= i < s.candidates.len() && has_passed(
            Some((#[trigger] s.candidates[i]).last_sent),
            s.timing.confirm_resend,
            now,
        ) implies all.contains(confirmation_text(s, i)) by {
        let j = c.index_of(confirmation_text(s, i));
        assert(all[a.len() + b.len() + j] == c[j]);
    }
    assert forall|x: Seq<char>| #[trigger] all.contains(x) implies {
        ||| x == registration_text(s) && has_passed(s.last_reg_sent, s.timing.reg_interval, now)
        ||| x == announcement_text(s) && s.registered && has_passed(
            s.last_spake2_sent,
            s.timing.spake2_resend,
            now,
        )
        ||| exists|i: int|
            0 <= i < s.candidates.len() && x == confirmation_text(s, i) && has_passed(
                Some((#[trigger] s.candidates[i]).last_sent),
                s.timing.confirm_resend,
                now,
            )
    } by {
        let j = all.index_of(x);
        if j >= a.len() + b.len() {
            assert(c[j - a.len() - b.len()] == x);
            assert(c.contains(x));
        }
    }
}

/// What was sent is not due again until its interval has passed: the time is
/// noted of just what was sent, and nothing else changes.
pub proof fn law_what_was_sent_is_noted(s: SessionView, now: Instant)
    ensures
        ({
            let s2 = s.after_due(now);
            &&& s2.last_reg_sent == (if has_passed(
                s.last_reg_sent,
                s.timing.reg_interval,
                now,
            ) {
                Some(now)
            } else {
                s.last_reg_sent
            })
            &&& s2.last_spake2_sent == (if s.registered && has_passed(
                s.last_spake2_sent,
                s.timing.spake2_resend,
                now,
            ) {
                Some(now)
            } else {
                s.last_spake2_sent
            })
            &&& s2.candidates.len() == s.candidates.len()
            &&& forall|i: int|
                0 <= i < s.candidates.len() ==> {
                    let c = s.candidates[i];
                    let c2 = #[trigger] s2.candidates[i];
                    &&& c2.last_sent == (if has_passed(
                        Some(c.last_sent),
                        s.timing.confirm_resend,
                        now,
                    ) {
                        now
                    } else {
                        c.last_sent
                    })
                    &&& c2.key == c.key && c2.role == c.role && c2.keys == c.keys
                        && c2.confirm_payload == c.confirm_payload
                }
            &&& s2.registered == s.registered && s2.pending_cookie == s.pending_cookie
                && s2.my_addr == s.my_addr && s2.buffered == s.buffered && s2.started == s.started
                && s2.room == s.room && s2.my_point_m == s.my_point_m && s2.my_point_n
                == s.my_point_n && s2.my_fingerprint == s.my_fingerprint && s2.timing == s.timing
                && s2.announced == s.announced && s2.confirm == s.confirm
        }),
{
}

/// Two peers in a room find each other: the announcement of the first, which is
/// due once it is registered, is read by the relay as a message for the room,
/// and what the relay passes on makes the second receive an announcement with
/// the first one's point and fingerprint, if that is new to it and it has not
/// too many candidates.
pub proof fn law_announcement_reaches_peer(
    s1: SessionView,
    s2: SessionView,
    room: Seq<u8>,
    now: Instant,
)
    requires
        crate::packet_laws::is_room_name(room),
        s1.room == crate::packet::ascii_chars(room),
        s1.registered,
        has_passed(s1.last_spake2_sent, s1.timing.spake2_resend, now),
        s1.my_point_m.len() == 65,
        s1.my_point_n.len() == 65,
        s1.my_fingerprint.len() == 32,
        s1.my_point_m != s2.my_point_m,
        forall|i: int|
            0 <= i < s2.candidates.len() ==> (#[trigger] s2.candidates[i]).key != s1.my_point_m,
        s2.candidates.len() < 50,
    ensures
        s1.due(now).contains(announcement_text(s1)),
        ({
            let hex = vstd::utf8::encode_utf8(
                crate::hex::spec_to_hex(s1.my_point_m + s1.my_point_n + s1.my_fingerprint),
            );
            let wire = vstd::utf8::encode_utf8(crate::model::msgd_text(Phase::Spake2, hex));
            let (t, r) = s2.receive(wire);
            &&& crate::packet::spec_parse_packet(vstd::utf8::encode_utf8(announcement_text(s1)))
                is Msg
            &&& crate::packet::spec_parse_msg(
                crate::packet::spec_parse_packet(
                    vstd::utf8::encode_utf8(announcement_text(s1)),
                )->Msg_0,
            ) == (crate::packet::MessageView::Valid { room, phase: Phase::Spake2, body: hex })
            &&& r is Spake
            &&& r->key == s1.my_point_m
            &&& r->role.peer_fingerprint == s1.my_fingerprint
            &&& t.announced == Some(r->Spake_body)
        }),
{
    law_what_is_due(s1, now);
    lemma_texts(s1);
    let p = crate::exchange::announcement(s1.my_point_m, s1.my_point_n, s1.my_fingerprint);
    assert(crate::room::spec_valid_room_name(room)) by {
        assert forall|i: int| 0 <= i < room.len() implies crate::room::is_room_byte(
            #[trigger] room[i],
        ) by {
            assert(32 < room[i] < 127);
        }
    }
    crate::wire_laws::law_message_is_read(room, Phase::Spake2, p);
    crate::wire_laws::law_relayed_message_is_read(s2, Phase::Spake2, p);
    crate::hex::law_hex_round_trip(p);
    assert(p.subrange(0, 65) =~= s1.my_point_m);
    assert(p.subrange(130, 162) =~= s1.my_fingerprint);
    if s2.knows(s1.my_point_m) {
        let i = choose|i: int|
            0 <= i < s2.candidates.len() && (#[trigger] s2.candidates[i]).key == s1.my_point_m;
        assert(s2.candidates[i].key != s1.my_point_m);
    }
}

/// The peer that a confirmation proves to be genuine is the first candidate that
/// it checks out for: there is one just when it checks out for any.
pub proof fn law_first_that_checks_out(s: SessionView, checks: Seq<CheckedConfirm>, i: int)
    requires
        s.confirm is Some,
        checks.len() == s.candidates.len(),
        0 <= i < checks.len(),
        spec_process_confirm(s.confirm->0, checks[i]) is Ok,
        forall|j: int|
            0 <= j < i ==> spec_process_confirm(s.confirm->0, #[trigger] checks[j]) is Err,
    ensures
        s.judged(checks) == Some(
            PeerView {
                addr: spec_process_confirm(s.confirm->0, checks[i])->Ok_0,
                fingerprint: s.candidates[i].role.peer_fingerprint,
                is_server: s.candidates[i].role.is_server,
            },
        ),
        s.after_judging(checks).buffered == s.buffered,
        s.after_judging(checks).candidates == s.candidates,
{
    lemma_least_match(s, s.confirm->0, checks, i, checks.len() as int);
}

proof fn lemma_least_match(
    s: SessionView,
    body: Seq<char>,
    checks: Seq<CheckedConfirm>,
    i: int,
    k: int,
)
    requires
        0 <= i < k <= checks.len(),
        spec_process_confirm(body, checks[i]) is Ok,
        forall|j: int| 0 <= j < i ==> spec_process_confirm(body, #[trigger] checks[j]) is Err,
    ensures
        s.first_match(body, checks, k) == Some(i),
    decreases k,
{
    if k - 1 > i {
        lemma_least_match(s, body, checks, i, k - 1);
    } else {
        lemma_first_match_found(s, body, checks, i);
        if s.first_match(body, checks, i) is Some {
            let j = s.first_match(body, checks, i)->0;
            assert(spec_process_confirm(body, checks[j]) is Err);
        }
    }
}

/// A confirmation that checks out for nobody is kept behind the others, as long
/// as there are fewer than two hundred.
pub proof fn law_confirmation_is_kept(s: SessionView, checks: Seq<CheckedConfirm>)
    requires
        s.confirm is Some,
        forall|j: int|
            0 <= j < checks.len() ==> spec_process_confirm(
                s.confirm->0,
                #[trigger] checks[j],
            ) is Err,
    ensures
        s.judged(checks) is None,
        s.after_judging(checks).buffered == (if s.buffered.len() < 200 {
            s.buffered.push(s.confirm->0)
        } else {
            s.buffered
        }),
        s.after_judging(checks).confirm is None,
        s.after_judging(checks).candidates == s.candidates,
{
    lemma_first_match_found(s, s.confirm->0, checks, checks.len() as int);
    if s.first_match(s.confirm->0, checks, checks.len() as int) is Some {
        let j = s.first_match(s.confirm->0, checks, checks.len() as int)->0;
        assert(spec_process_confirm(s.confirm->0, checks[j]) is Err);
    }
}

/// A confirmation that came before the announcement counts when it is held
/// against the newest candidate: the first kept one that checks out.
pub proof fn law_kept_confirmation_counts(s: SessionView, checks: Seq<CheckedConfirm>, i: int)
    requires
        s.candidates.len() > 0,
        checks.len() == s.buffered.len(),
        0 <= i < checks.len(),
        spec_process_confirm(s.buffered[i], checks[i]) is Ok,
        forall|j: int|
            0 <= j < i ==> spec_process_confirm(s.buffered[j], #[trigger] checks[j]) is Err,
    ensures
        s.judged_buffered(checks) == Some(
            PeerView {
                addr: spec_process_confirm(s.buffered[i], checks[i])->Ok_0,
                fingerprint: s.candidates.last().role.peer_fingerprint,
                is_server: s.candidates.last().role.is_server,
            },
        ),
{
    lemma_least_buffered(s, checks, i, checks.len() as int);
}

proof fn lemma_least_buffered(s: SessionView, checks: Seq<CheckedConfirm>, i: int, k: int)
    requires
        0 <= i < k <= checks.len(),
        spec_process_confirm(s.buffered[i], checks[i]) is Ok,
        forall|j: int|
            0 <= j < i ==> spec_process_confirm(s.buffered[j], #[trigger] checks[j]) is Err,
    ensures
        s.first_buffered(checks, k) == Some(i),
    decreases k,
{
    if k - 1 > i {
        lemma_least_buffered(s, checks, i, k - 1);
    } else {
        lemma_first_buffered_found(s, checks, i);
        if s.first_buffered(checks, i) is Some {
            let j = s.first_buffered(checks, i)->0;
            assert(spec_process_confirm(s.buffered[j], checks[j]) is Err);
        }
    }
}

/// What an announcement leads to: one that is cut short or not hex counts for
/// nothing, nor does one of a peer that is known, nor one too many; the others
/// are read, and one's own point is refused.
pub proof fn law_announcements_sorted(s: SessionView, p: Seq<u8>)
    ensures
        ({
            let r = s.on_spake(crate::hex::spec_to_hex(p));
            let m = p.subrange(0, 65);
            let known = exists|i: int|
                0 <= i < s.candidates.len() && (#[trigger] s.candidates[i]).key == m;
            if p.len() < 162 {
                r is ShortSpake
            } else if known {
                r is KnownPeer
            } else if s.candidates.len() >= 50 {
                r is TooManyPeers
            } else if m == s.my_point_m {
                r is BadSpake
            } else {
                r is Spake && r->key == m
            }
        }),
{
    crate::hex::law_hex_round_trip(p);
}

/// Word of a registration in another room counts for nothing, and neither does
/// one that is cut off behind the room.
pub proof fn law_other_rooms_ignored(s: SessionView, room: Seq<u8>, tail: Seq<u8>)
    requires
        forall|i: int| 0 <= i < room.len() ==> #[trigger] room[i] != 32,
    ensures
        room != vstd::utf8::encode_utf8(s.room) ==> s.on_regd(room + seq![32u8] + tail) == (
            s,
            ReceivedView::Nothing,
        ),
        s.on_regd(room) == (s, ReceivedView::Nothing),
{
    let n = room.len() as int;
    let rest = room + seq![32u8] + tail;
    crate::seqs::lemma_first_index(room, 32u8, n);
    assert forall|j: int| 0 <= j < n implies rest[j] != 32 by {
        assert(rest[j] == room[j]);
    }
    assert(rest[n] == 32);
    crate::seqs::lemma_first_index(rest, 32u8, n);
    assert(rest.take(n) =~= room);
}

/// Whatever a datagram says, it changes nothing of a session but its
/// registration, its own address, and what was heard last: not its candidates,
/// the confirmations kept, its room, its points or its fingerprint.
pub proof fn law_what_a_datagram_changes(s: SessionView, data: Seq<u8>)
    ensures
        ({
            let (t, r) = s.receive(data);
            &&& t.candidates == s.candidates && t.buffered == s.buffered && t.room == s.room
                && t.my_point_m == s.my_point_m && t.my_point_n == s.my_point_n
                && t.my_fingerprint == s.my_fingerprint && t.timing == s.timing && t.started
                == s.started && t.last_spake2_sent == s.last_spake2_sent
            &&& r is Registered ==> t.registered && t.pending_cookie == s.pending_cookie
                && t.last_reg_sent == s.last_reg_sent
            &&& r is Challenged ==> t.registered == s.registered && t.my_addr == s.my_addr
                && t.last_reg_sent is None && t.pending_cookie.len() == 32
            &&& r !is Registered && r !is Challenged ==> t.registered == s.registered && t.my_addr
                == s.my_addr && t.pending_cookie == s.pending_cookie && t.last_reg_sent
                == s.last_reg_sent
            &&& t.announced is Some <==> r is Spake
            &&& t.confirm is Some <==> r is Confirm
        }),
{
}

/// A peer that was announced becomes a candidate when the keys are agreed on:
/// behind the others, with its point, its role, the keys and the confirmation
/// for it. That confirmation is sent at once.
pub proof fn law_announced_peer_is_taken_up(
    s: SessionView,
    data: Seq<u8>,
    keys: SessionKeys,
    payload: Seq<u8>,
    now: Instant,
)
    requires
        s.receive(data).1 is Spake,
    ensures
        ({
            let (t, r) = s.receive(data);
            let (u, msg) = t.agreed(keys, payload, now);
            &&& u.candidates.len() == s.candidates.len() + 1
            &&& u.candidates.drop_last() == s.candidates
            &&& u.candidates.last().key == r->key
            &&& u.candidates.last().role == r->role
            &&& u.candidates.last().keys == keys
            &&& u.candidates.last().confirm_payload == payload
            &&& u.candidates.last().last_sent == now
            &&& msg == Some(confirmation_text(u, u.candidates.len() - 1))
            &&& u.announced is None
            &&& u.agreed(keys, payload, now).1 is None
        }),
{
    let (t, r) = s.receive(data);
    let (u, msg) = t.agreed(keys, payload, now);
    assert(t.knows(r->key) == s.knows(r->key));
    assert(t.on_spake(r->Spake_body) == r);
    assert(u.candidates.drop_last() =~= s.candidates);
    lemma_texts(u);
    assert(u.candidates[u.candidates.len() - 1].confirm_payload == payload);
}

} // verus!
