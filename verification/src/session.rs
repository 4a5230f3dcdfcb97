//! One peer's side of the exchange over a relay: what to send and when, and
//! what to make of what arrives.
//!
//! The application owns the socket, the clock and the key agreement. It asks
//! the session what is [due](Session::due), sends that, hands over each
//! datagram that [arrives](Session::receive), and carries out the cryptography
//! that the answer calls for.
use vstd::prelude::*;
use vstd::slice::slice_subrange;

use crate::clock::{Duration, Instant};
use crate::exchange::{
    copy_bytes, parse_spake, process_confirm_msg, trim_ascii, CheckedConfirm, ExchangeError,
    ExchangeErrorView, ProcessedSpake, SessionKeys, SpakeRole, SpakeRoleView,
    MAX_BUFFERED_CONFIRMS, MAX_CANDIDATES, POINT_LEN, SPAKE2_PAYLOAD_LEN,
};
use crate::hex::{hex_decode, hex_decode_bytes, to_hex_lower};
use crate::packet::ascii_string;
use crate::seqs::{bytes_begin_with, find_byte, same_bytes};
use crate::text::{from_utf8, from_utf8_lossy};

verus! {

/// A peer that announced itself.
#[derive(Debug)]
pub struct Candidate {
    /// The point M that it announced.
    pub key: Vec<u8>,
    pub spake: ProcessedSpake,
    /// The confirmation that it is sent.
    pub confirm_payload: Vec<u8>,
    /// When that was last sent.
    pub last_sent: Instant,
}

/// A [`Candidate`] by its contents.
#[verifier::ext_equal]
pub struct CandidateView {
    pub key: Seq<u8>,
    pub role: SpakeRoleView,
    pub keys: SessionKeys,
    pub confirm_payload: Seq<u8>,
    pub last_sent: Instant,
}

impl View for Candidate {
    type V = CandidateView;

    open spec fn view(&self) -> CandidateView {
        CandidateView {
            key: self.key@,
            role: self.spake.role(),
            keys: SessionKeys {
                confirm_key: self.spake.confirm_key,
                enc_key: self.spake.enc_key,
            },
            confirm_payload: self.confirm_payload@,
            last_sent: self.last_sent,
        }
    }
}

/// Intervals that a session goes by.
#[derive(Clone, Copy, Debug, PartialEq, Eq, Structural)]
pub struct Timing {
    pub exchange_deadline: Duration,
    pub spake2_resend: Duration,
    pub confirm_resend: Duration,
    pub reg_interval: Duration,
}

/// One peer's side of the exchange.
#[derive(Debug)]
pub struct Session {
    pub room: String,
    pub my_point_m: Vec<u8>,
    pub my_point_n: Vec<u8>,
    pub my_fingerprint: Vec<u8>,
    /// The address that the peer is told.
    pub my_addr: String,
    pub timing: Timing,
    pub started: Instant,
    pub candidates: Vec<Candidate>,
    /// The announcement of a new peer that came last, in hex, until its keys
    /// are agreed on or something else comes.
    pub announced: Option<String>,
    /// The confirmation that came last, in hex, until it is judged or something
    /// else comes.
    pub confirm: Option<String>,
    /// Confirmations that no candidate could be found for.
    pub buffered: Vec<String>,
    pub last_spake2_sent: Option<Instant>,
    pub last_reg_sent: Option<Instant>,
    pub registered: bool,
    pub pending_cookie: String,
}

/// A [`Session`] by its contents.
#[verifier::ext_equal]
pub struct SessionView {
    pub room: Seq<char>,
    pub my_point_m: Seq<u8>,
    pub my_point_n: Seq<u8>,
    pub my_fingerprint: Seq<u8>,
    pub my_addr: Seq<char>,
    pub timing: Timing,
    pub started: Instant,
    pub candidates: Seq<CandidateView>,
    pub announced: Option<Seq<char>>,
    pub confirm: Option<Seq<char>>,
    pub buffered: Seq<Seq<char>>,
    pub last_spake2_sent: Option<Instant>,
    pub last_reg_sent: Option<Instant>,
    pub registered: bool,
    pub pending_cookie: Seq<char>,
}

impl View for Session {
    type V = SessionView;

    open spec fn view(&self) -> SessionView {
        SessionView {
            room: self.room@,
            my_point_m: self.my_point_m@,
            my_point_n: self.my_point_n@,
            my_fingerprint: self.my_fingerprint@,
            my_addr: self.my_addr@,
            timing: self.timing,
            started: self.started,
            candidates: Seq::new(self.candidates@.len(), |i: int| self.candidates@[i]@),
            announced: match self.announced {
                Some(body) => Some(body@),
                None => None,
            },
            confirm: match self.confirm {
                Some(body) => Some(body@),
                None => None,
            },
            buffered: crate::room::views_of(self.buffered@),
            last_spake2_sent: self.last_spake2_sent,
            last_reg_sent: self.last_reg_sent,
            registered: self.registered,
            pending_cookie: self.pending_cookie@,
        }
    }
}

/// `REG <room>`, with the cookie if there is one.
pub open spec fn reg_text(room: Seq<char>, cookie: Seq<char>) -> Seq<char> {
    if cookie.len() == 0 {
        "REG "@ + room + "\n"@
    } else {
        "REG "@ + room + " "@ + cookie + "\n"@
    }
}

/// `MSG <room> <phase> <body in hex>`.
pub open spec fn msg_text(room: Seq<char>, phase: crate::packet::Phase, body: Seq<u8>) -> Seq<char> {
    "MSG "@ + room + " "@ + phase.spec_name() + " "@ + crate::hex::spec_to_hex(body) + "\n"@
}

/// What was last done at `last` is to be done again after `interval`.
pub open spec fn is_due(last: Option<Instant>, now: Instant, interval: Duration) -> bool {
    last is Some ==> crate::clock::elapsed(now, last->0) > interval.nanos
}

impl SessionView {
    /// The registration, if it is due.
    pub open spec fn due_reg(self, now: Instant) -> Seq<Seq<char>> {
        if is_due(self.last_reg_sent, now, self.timing.reg_interval) {
            seq![reg_text(self.room, self.pending_cookie)]
        } else {
            Seq::empty()
        }
    }

    /// The announcement, if it is due.
    pub open spec fn due_spake(self, now: Instant) -> Seq<Seq<char>> {
        if self.registered && is_due(self.last_spake2_sent, now, self.timing.spake2_resend) {
            seq![
                msg_text(
                    self.room,
                    crate::packet::Phase::Spake2,
                    crate::exchange::announcement(
                        self.my_point_m,
                        self.my_point_n,
                        self.my_fingerprint,
                    ),
                ),
            ]
        } else {
            Seq::empty()
        }
    }

    /// The confirmations to the first `k` candidates that are due.
    pub open spec fn due_confirms(self, k: int, now: Instant) -> Seq<Seq<char>>
        decreases k,
    {
        if k <= 0 {
            Seq::empty()
        } else {
            let c = self.candidates[k - 1];
            let before = self.due_confirms(k - 1, now);
            if is_due(Some(c.last_sent), now, self.timing.confirm_resend) {
                before.push(
                    msg_text(self.room, crate::packet::Phase::Confirm, c.confirm_payload),
                )
            } else {
                before
            }
        }
    }

    /// Everything that is due.
    pub open spec fn due(self, now: Instant) -> Seq<Seq<char>> {
        self.due_reg(now) + self.due_spake(now) + self.due_confirms(
            self.candidates.len() as int,
            now,
        )
    }

    /// A candidate after what is due was sent.
    pub open spec fn candidate_after(self, c: CandidateView, now: Instant) -> CandidateView {
        if is_due(Some(c.last_sent), now, self.timing.confirm_resend) {
            CandidateView { last_sent: now, ..c }
        } else {
            c
        }
    }

    /// The session after what is due was sent.
    pub open spec fn after_due(self, now: Instant) -> SessionView {
        SessionView {
            last_reg_sent: if is_due(self.last_reg_sent, now, self.timing.reg_interval) {
                Some(now)
            } else {
                self.last_reg_sent
            },
            last_spake2_sent: if self.registered && is_due(
                self.last_spake2_sent,
                now,
                self.timing.spake2_resend,
            ) {
                Some(now)
            } else {
                self.last_spake2_sent
            },
            candidates: Seq::new(
                self.candidates.len(),
                |i: int| self.candidate_after(self.candidates[i], now),
            ),
            ..self
        }
    }

    /// A candidate announced this point.
    pub open spec fn knows(self, key: Seq<u8>) -> bool {
        exists|i: int| 0 <= i < self.candidates.len() && (#[trigger] self.candidates[i]).key == key
    }
}

fn push_reg(out: &mut Vec<String>, room: &str, cookie: &str)
    ensures
        crate::room::views_of(final(out)@) == crate::room::views_of(old(out)@).push(
            reg_text(room@, cookie@),
        ),
{
    let mut s = String::new();
    s.push_str("REG ");
    s.push_str(room);
    if !cookie.is_empty() {
        s.push_str(" ");
        s.push_str(cookie);
    }
    s.push_str("\n");
    assert(s@ =~= reg_text(room@, cookie@));
    out.push(s);
    assert(crate::room::views_of(out@) =~= crate::room::views_of(old(out)@).push(
        reg_text(room@, cookie@),
    ));
}

/// The message that carries `body` to the room.
pub fn message(room: &str, phase: crate::packet::Phase, body: &[u8]) -> (s: String)
    ensures
        s@ == msg_text(room@, phase, body@),
{
    let mut s = String::new();
    s.push_str("MSG ");
    s.push_str(room);
    s.push_str(" ");
    s.push_str(phase.name());
    s.push_str(" ");
    s.push_str(to_hex_lower(body).as_str());
    s.push_str("\n");
    assert(s@ =~= msg_text(room@, phase, body@));
    s
}

fn is_time(last: Option<Instant>, now: Instant, interval: Duration) -> (b: bool)
    ensures
        b == is_due(last, now, interval),
{
    match last {
        Some(t) => now.duration_since(t).nanos > interval.nanos,
        None => true,
    }
}

impl Session {
    /// The tables are within their bounds, and no point occurs twice.
    pub open spec fn wf(&self) -> bool {
        &&& self.candidates@.len() <= MAX_CANDIDATES
        &&& self.buffered@.len() <= MAX_BUFFERED_CONFIRMS
        &&& forall|i: int, j: int|
            0 <= i < j < self.candidates@.len() ==> (#[trigger] self@.candidates[i]).key != (
            #[trigger] self@.candidates[j]).key
    }

    pub fn new(
        room: &str,
        my_point_m: &[u8],
        my_point_n: &[u8],
        my_fingerprint: &[u8],
        my_addr: &str,
        timing: Timing,
        now: Instant,
    ) -> (s: Session)
        ensures
            s.wf(),
            s@ == (SessionView {
                room: room@,
                my_point_m: my_point_m@,
                my_point_n: my_point_n@,
                my_fingerprint: my_fingerprint@,
                my_addr: my_addr@,
                timing,
                started: now,
                candidates: Seq::empty(),
                announced: None,
                confirm: None,
                buffered: Seq::empty(),
                last_spake2_sent: None,
                last_reg_sent: None,
                registered: false,
                pending_cookie: Seq::empty(),
            }),
    {
        let s = Session {
            room: room.to_owned(),
            my_point_m: copy_bytes(my_point_m),
            my_point_n: copy_bytes(my_point_n),
            my_fingerprint: copy_bytes(my_fingerprint),
            my_addr: my_addr.to_owned(),
            timing,
            started: now,
            candidates: Vec::new(),
            announced: None,
            confirm: None,
            buffered: Vec::new(),
            last_spake2_sent: None,
            last_reg_sent: None,
            registered: false,
            pending_cookie: String::new(),
        };
        assert(s@.candidates =~= Seq::empty());
        assert(s@.buffered =~= Seq::empty());
        s
    }

    /// The datagrams to send now. Fails when the exchange was cancelled or has
    /// taken too long.
    pub fn due(&mut self, cancelled: bool, now: Instant) -> (r: Result<Vec<String>, ExchangeError>)
        requires
            old(self).wf(),
        ensures
            final(self).wf(),
            match r {
                Err(e) => final(self)@ == old(self)@ && e@ == (if cancelled {
                    ExchangeErrorView::Cancelled
                } else {
                    ExchangeErrorView::Timeout
                }),
                Ok(msgs) => final(self)@ == old(self)@.after_due(now) && crate::room::views_of(
                    msgs@,
                ) == old(self)@.due(now),
            },
            r is Err <==> cancelled || crate::clock::elapsed(now, old(self)@.started)
                > old(self)@.timing.exchange_deadline.nanos,
    {
        if cancelled {
            return Err(ExchangeError::Cancelled);
        }
        if now.duration_since(self.started).nanos > self.timing.exchange_deadline.nanos {
            return Err(ExchangeError::Timeout);
        }
        let ghost before = self@;
        let mut out: Vec<String> = Vec::new();
        assert(crate::room::views_of(out@) =~= Seq::empty());
        if is_time(self.last_reg_sent, now, self.timing.reg_interval) {
            push_reg(&mut out, self.room.as_str(), self.pending_cookie.as_str());
            self.last_reg_sent = Some(now);
        }
        assert(crate::room::views_of(out@) =~= before.due_reg(now));
        if self.registered && is_time(self.last_spake2_sent, now, self.timing.spake2_resend) {
            let p = self.spake2_payload();
            let m = message(
                self.room.as_str(),
                crate::packet::Phase::Spake2,
                p.as_slice(),
            );
            out.push(m);
            self.last_spake2_sent = Some(now);
        }
        let ghost head = before.due_reg(now) + before.due_spake(now);
        assert(crate::room::views_of(out@) =~= head);
        let mut i: usize = 0;
        assert(head + before.due_confirms(0, now) =~= head);
        while i < self.candidates.len()
            invariant
                i <= self.candidates@.len(),
                before.candidates.len() == self.candidates@.len(),
                self.candidates@.len() <= MAX_CANDIDATES,
                self.timing == before.timing,
                self.room@ == before.room,
                self@ == (SessionView {
                    candidates: self@.candidates,
                    last_reg_sent: before.after_due(now).last_reg_sent,
                    last_spake2_sent: before.after_due(now).last_spake2_sent,
                    ..before
                }),
                self.buffered@.len() <= MAX_BUFFERED_CONFIRMS,
                forall|j: int|
                    0 <= j < i ==> (#[trigger] self.candidates@[j])@ == before.candidate_after(
                        before.candidates[j],
                        now,
                    ),
                forall|j: int|
                    i <= j < before.candidates.len() ==> (#[trigger] self.candidates@[j])@
                        == before.candidates[j],
                crate::room::views_of(out@) == head + before.due_confirms(i as int, now),
            decreases self.candidates@.len() - i,
        {
            let ghost cs = self.candidates@;
            assert(cs[i as int]@ == before.candidates[i as int]);
            if is_time(Some(self.candidates[i].last_sent), now, self.timing.confirm_resend) {
                let m = message(
                    self.room.as_str(),
                    crate::packet::Phase::Confirm,
                    self.candidates[i].confirm_payload.as_slice(),
                );
                let ghost out0 = out@;
                out.push(m);
                self.candidates[i].last_sent = now;
                proof {
                    assert(crate::room::views_of(out@) =~= crate::room::views_of(out0).push(m@));
                    assert(before.due_confirms(i + 1, now) == before.due_confirms(
                        i as int,
                        now,
                    ).push(m@));
                    assert(self.candidates@ =~= cs.update(i as int, self.candidates@[i as int]));
                    assert(crate::room::views_of(out@) =~= head + before.due_confirms(
                        i + 1,
                        now,
                    ));
                }
            }
            i = i + 1;
        }
        proof {
            assert(self@.candidates =~= before.after_due(now).candidates);
            assert(self@ =~= before.after_due(now));
            assert forall|a: int, b: int| 0 <= a < b < self.candidates@.len() implies (
            #[trigger] self@.candidates[a]).key != (#[trigger] self@.candidates[b]).key by {
                assert(before.candidates[a].key != before.candidates[b].key);
            }
        }
        Ok(out)
    }

    /// What the peer is announced with.
    pub fn spake2_payload(&self) -> (v: Vec<u8>)
        ensures
            v@ == crate::exchange::announcement(
                self@.my_point_m,
                self@.my_point_n,
                self@.my_fingerprint,
            ),
    {
        let mut v = copy_bytes(self.my_point_m.as_slice());
        let mut n = copy_bytes(self.my_point_n.as_slice());
        let mut f = copy_bytes(self.my_fingerprint.as_slice());
        v.append(&mut n);
        v.append(&mut f);
        assert(v@ =~= crate::exchange::announcement(
            self@.my_point_m,
            self@.my_point_n,
            self@.my_fingerprint,
        ));
        v
    }
}

/// What follows the prefix `p` in `s`.
pub open spec fn spec_strip_prefix(s: Seq<u8>, p: Seq<char>) -> Option<Seq<u8>> {
    let b = vstd::utf8::encode_utf8(p);
    if crate::seqs::begins_with(s, b) {
        Some(s.skip(b.len() as int))
    } else {
        None
    }
}

fn strip_prefix<'a>(s: &'a [u8], p: &str) -> (r: Option<&'a [u8]>)
    ensures
        match r {
            Some(t) => spec_strip_prefix(s@, p@) == Some(t@),
            None => spec_strip_prefix(s@, p@) is None,
        },
{
    let b = p.as_bytes();
    if bytes_begin_with(s, b) {
        let t = slice_subrange(s, b.len(), s.len());
        assert(t@ =~= s@.skip(b@.len() as int));
        Some(t)
    } else {
        None
    }
}

/// What a datagram means to a session.
#[derive(Debug)]
pub enum Received {
    /// Nothing.
    Nothing,
    /// The relay has registered this peer.
    Registered,
    /// The relay wants the cookie back.
    Challenged,
    /// An announcement that is cut short, or is not hex.
    ShortSpake,
    /// An announcement of a peer that is known.
    KnownPeer,
    /// An announcement when there are too many already.
    TooManyPeers,
    /// An announcement that cannot be used.
    BadSpake(ExchangeError),
    /// A new peer: `key` is the point M that it announced, `body` the
    /// announcement in hex.
    Spake { key: Vec<u8>, body: String, role: SpakeRole },
    /// A confirmation, in hex.
    Confirm { body: String },
}

/// [`Received`] by its contents.
pub enum ReceivedView {
    Nothing,
    Registered,
    Challenged,
    ShortSpake,
    KnownPeer,
    TooManyPeers,
    BadSpake(ExchangeErrorView),
    Spake { key: Seq<u8>, body: Seq<char>, role: SpakeRoleView },
    Confirm { body: Seq<char> },
}

impl View for Received {
    type V = ReceivedView;

    open spec fn view(&self) -> ReceivedView {
        match self {
            Received::Nothing => ReceivedView::Nothing,
            Received::Registered => ReceivedView::Registered,
            Received::Challenged => ReceivedView::Challenged,
            Received::ShortSpake => ReceivedView::ShortSpake,
            Received::KnownPeer => ReceivedView::KnownPeer,
            Received::TooManyPeers => ReceivedView::TooManyPeers,
            Received::BadSpake(e) => ReceivedView::BadSpake(e@),
            Received::Spake { key, body, role } => ReceivedView::Spake {
                key: key@,
                body: body@,
                role: role@,
            },
            Received::Confirm { body } => ReceivedView::Confirm { body: body@ },
        }
    }
}

impl SessionView {
    /// What follows `REGD ` in a datagram.
    pub open spec fn on_regd(self, rest: Seq<u8>) -> (SessionView, ReceivedView) {
        let (room, tail) = crate::packet::split_space(rest);
        if tail is None || room != vstd::utf8::encode_utf8(self.room) {
            (self, ReceivedView::Nothing)
        } else {
            let payload = crate::room::spec_trim(tail->0);
            match spec_strip_prefix(payload, "OK "@) {
                Some(ok) => {
                    let ext = crate::room::spec_trim(ok);
                    (
                        SessionView {
                            registered: true,
                            my_addr: if ext.len() == 0 {
                                self.my_addr
                            } else {
                                crate::text::lossy_text(ext)
                            },
                            ..self
                        },
                        ReceivedView::Registered,
                    )
                },
                None => if payload.len() == 32 && crate::hex::spec_hex_decode(payload) is Some {
                    (
                        SessionView {
                            pending_cookie: crate::packet::ascii_chars(payload),
                            last_reg_sent: None,
                            ..self
                        },
                        ReceivedView::Challenged,
                    )
                } else {
                    (self, ReceivedView::Nothing)
                },
            }
        }
    }

    /// An announcement in hex.
    pub open spec fn on_spake(self, body: Seq<char>) -> ReceivedView {
        match crate::hex::spec_hex_decode(vstd::utf8::encode_utf8(body)) {
            None => ReceivedView::ShortSpake,
            Some(p) => if p.len() < SPAKE2_PAYLOAD_LEN {
                ReceivedView::ShortSpake
            } else if self.knows(p.subrange(0, 65)) {
                ReceivedView::KnownPeer
            } else if self.candidates.len() >= MAX_CANDIDATES {
                ReceivedView::TooManyPeers
            } else {
                match crate::exchange::spec_parse_spake(body, self.my_point_m, self.my_point_n) {
                    Err(e) => ReceivedView::BadSpake(e),
                    Ok(role) => ReceivedView::Spake { key: p.subrange(0, 65), body, role },
                }
            },
        }
    }

    /// The announcement of a new peer is kept until its keys are agreed on, a
    /// confirmation until it is judged, or either until something else comes.
    pub open spec fn noting(self, r: ReceivedView) -> SessionView {
        SessionView {
            announced: match r {
                ReceivedView::Spake { body, .. } => Some(body),
                _ => None,
            },
            confirm: match r {
                ReceivedView::Confirm { body } => Some(body),
                _ => None,
            },
            ..self
        }
    }

    /// A datagram: the session after it, and what it means.
    pub open spec fn receive(self, data: Seq<u8>) -> (SessionView, ReceivedView) {
        let (s, r) = self.read(data);
        (s.noting(r), r)
    }

    /// What a datagram means, and what becomes of the registration.
    pub open spec fn read(self, data: Seq<u8>) -> (SessionView, ReceivedView) {
        let line = crate::room::spec_trim(data);
        match spec_strip_prefix(line, "REGD "@) {
            Some(rest) => self.on_regd(rest),
            None => match spec_strip_prefix(line, "MSGD spake2 "@) {
                Some(b) => if vstd::utf8::valid_utf8(b) {
                    (self, self.on_spake(vstd::utf8::decode_utf8(b)))
                } else {
                    (self, ReceivedView::Nothing)
                },
                None => match spec_strip_prefix(line, "MSGD confirm "@) {
                    Some(b) => if vstd::utf8::valid_utf8(b) {
                        (self, ReceivedView::Confirm { body: vstd::utf8::decode_utf8(b) })
                    } else {
                        (self, ReceivedView::Nothing)
                    },
                    None => (self, ReceivedView::Nothing),
                },
            },
        }
    }

    /// The keys of the announced peer were agreed on, and `payload` is the
    /// confirmation for it: the session with the new candidate, and the message
    /// to send.
    pub open spec fn agreed(self, keys: SessionKeys, payload: Seq<u8>, now: Instant) -> (
        SessionView,
        Option<Seq<char>>,
    ) {
        let s = SessionView { announced: None, ..self };
        match self.announced {
            None => (s, None),
            Some(body) => match self.on_spake(body) {
                ReceivedView::Spake { key, role, .. } => (
                    SessionView {
                        candidates: self.candidates.push(
                            CandidateView {
                                key,
                                role,
                                keys,
                                confirm_payload: payload,
                                last_sent: now,
                            },
                        ),
                        ..s
                    },
                    Some(msg_text(self.room, crate::packet::Phase::Confirm, payload)),
                ),
                _ => (s, None),
            },
        }
    }

    /// The first of the first `k` candidates that a confirmation checks out
    /// for.
    pub open spec fn first_match(
        self,
        body: Seq<char>,
        checks: Seq<CheckedConfirm>,
        k: int,
    ) -> Option<int>
        decreases k,
    {
        if k <= 0 {
            None
        } else {
            match self.first_match(body, checks, k - 1) {
                Some(i) => Some(i),
                None => if crate::exchange::spec_process_confirm(body, checks[k - 1]) is Ok {
                    Some(k - 1)
                } else {
                    None
                },
            }
        }
    }

    /// The first of the first `k` kept confirmations that checks out.
    pub open spec fn first_buffered(self, checks: Seq<CheckedConfirm>, k: int) -> Option<int>
        decreases k,
    {
        if k <= 0 {
            None
        } else {
            match self.first_buffered(checks, k - 1) {
                Some(i) => Some(i),
                None => if crate::exchange::spec_process_confirm(
                    self.buffered[k - 1],
                    checks[k - 1],
                ) is Ok {
                    Some(k - 1)
                } else {
                    None
                },
            }
        }
    }

    /// The session after a confirmation that checked out for nobody: it is
    /// kept, if there is room for it.
    pub open spec fn keep_confirm(self, body: Seq<char>) -> SessionView {
        if self.buffered.len() < MAX_BUFFERED_CONFIRMS {
            SessionView { buffered: self.buffered.push(body), ..self }
        } else {
            self
        }
    }

    /// The peer that the confirmation that came last proves to be genuine, from
    /// what checking it against each candidate came to: the first that it checks
    /// out for.
    pub open spec fn judged(self, checks: Seq<CheckedConfirm>) -> Option<PeerView> {
        match self.confirm {
            None => None,
            Some(body) => match self.first_match(body, checks, checks.len() as int) {
                Some(i) => Some(
                    PeerView {
                        addr: crate::exchange::spec_process_confirm(body, checks[i])->Ok_0,
                        fingerprint: self.candidates[i].role.peer_fingerprint,
                        is_server: self.candidates[i].role.is_server,
                    },
                ),
                None => None,
            },
        }
    }

    /// The session after the confirmation that came last was judged.
    pub open spec fn after_judging(self, checks: Seq<CheckedConfirm>) -> SessionView {
        let s = SessionView { confirm: None, ..self };
        if self.confirm is Some && self.judged(checks) is None {
            s.keep_confirm(self.confirm->0)
        } else {
            s
        }
    }

    /// The newest candidate, if a kept confirmation proves it to be genuine;
    /// `checks` is what checking each against it came to.
    pub open spec fn judged_buffered(self, checks: Seq<CheckedConfirm>) -> Option<PeerView> {
        match self.first_buffered(checks, checks.len() as int) {
            Some(i) => Some(
                PeerView {
                    addr: crate::exchange::spec_process_confirm(
                        self.buffered[i],
                        checks[i],
                    )->Ok_0,
                    fingerprint: self.candidates.last().role.peer_fingerprint,
                    is_server: self.candidates.last().role.is_server,
                },
            ),
            None => None,
        }
    }
}

/// The peer that an exchange ends with.
#[derive(Debug)]
pub struct Authenticated {
    pub peer_addr: String,
    pub peer_fingerprint: Vec<u8>,
    pub is_server: bool,
}

/// [`Authenticated`] by its contents.
#[verifier::ext_equal]
pub struct PeerView {
    pub addr: Seq<char>,
    pub fingerprint: Seq<u8>,
    pub is_server: bool,
}

impl View for Authenticated {
    type V = PeerView;

    open spec fn view(&self) -> PeerView {
        PeerView {
            addr: self.peer_addr@,
            fingerprint: self.peer_fingerprint@,
            is_server: self.is_server,
        }
    }
}

impl Session {
    fn knows(&self, key: &[u8]) -> (b: bool)
        ensures
            b == self@.knows(key@),
    {
        let mut i: usize = 0;
        while i < self.candidates.len()
            invariant
                i <= self.candidates@.len(),
                forall|j: int| 0 <= j < i ==> (#[trigger] self@.candidates[j]).key != key@,
            decreases self.candidates@.len() - i,
        {
            if same_bytes(self.candidates[i].key.as_slice(), key) {
                assert(self@.candidates[i as int].key == key@);
                return true;
            }
            i = i + 1;
        }
        false
    }

    fn on_regd(&mut self, rest: &[u8]) -> (r: Received)
        requires
            old(self).wf(),
        ensures
            final(self).wf(),
            (final(self)@, r@) == old(self)@.on_regd(rest@),
    {
        let ghost before = self@;
        let i = find_byte(rest, crate::packet::SPACE);
        if i >= rest.len() {
            return Received::Nothing;
        }
        let room = slice_subrange(rest, 0, i);
        let tail = slice_subrange(rest, i + 1, rest.len());
        assert(room@ =~= rest@.take(i as int));
        assert(tail@ =~= rest@.skip(i + 1));
        if !same_bytes(room, self.room.as_str().as_bytes()) {
            return Received::Nothing;
        }
        let payload = trim_ascii(tail);
        if let Some(ok) = strip_prefix(payload, "OK ") {
            self.registered = true;
            let ext = trim_ascii(ok);
            if ext.len() > 0 {
                self.my_addr = from_utf8_lossy(ext);
            }
            assert(self@ =~= before.on_regd(rest@).0);
            return Received::Registered;
        }
        if payload.len() == 32 {
            if hex_decode_bytes(payload).is_some() {
                assert(forall|j: int| 0 <= j < payload@.len() ==> crate::room::is_hex_digit(
                    #[trigger] payload@[j],
                ));
                self.pending_cookie = ascii_string(payload);
                self.last_reg_sent = None;
                assert(self@ =~= before.on_regd(rest@).0);
                return Received::Challenged;
            }
        }
        Received::Nothing
    }

    fn on_spake(&self, body: &str) -> (r: Received)
        requires
            self.wf(),
        ensures
            r@ == self@.on_spake(body@),
    {
        let p: Vec<u8> = match hex_decode(body) {
            Some(p) => p,
            None => {
                return Received::ShortSpake;
            },
        };
        if p.len() < SPAKE2_PAYLOAD_LEN {
            return Received::ShortSpake;
        }
        let key = slice_subrange(p.as_slice(), 0, POINT_LEN);
        if self.knows(key) {
            return Received::KnownPeer;
        }
        if self.candidates.len() >= MAX_CANDIDATES {
            return Received::TooManyPeers;
        }
        match parse_spake(body, self.my_point_m.as_slice(), self.my_point_n.as_slice()) {
            Err(e) => Received::BadSpake(e),
            Ok(role) => Received::Spake { key: copy_bytes(key), body: body.to_owned(), role },
        }
    }

    /// Takes in a datagram from the relay.
    pub fn receive(&mut self, data: &[u8]) -> (r: Received)
        requires
            old(self).wf(),
        ensures
            final(self).wf(),
            (final(self)@, r@) == old(self)@.receive(data@),
    {
        let r = self.read(data);
        let ghost s = self@;
        self.announced = match &r {
            Received::Spake { body, .. } => Some(body.clone()),
            _ => None,
        };
        self.confirm = match &r {
            Received::Confirm { body } => Some(body.clone()),
            _ => None,
        };
        assert(self@ =~= s.noting(r@));
        r
    }

    fn read(&mut self, data: &[u8]) -> (r: Received)
        requires
            old(self).wf(),
        ensures
            final(self).wf(),
            (final(self)@, r@) == old(self)@.read(data@),
    {
        let line = trim_ascii(data);
        if let Some(rest) = strip_prefix(line, "REGD ") {
            return self.on_regd(rest);
        }
        if let Some(b) = strip_prefix(line, "MSGD spake2 ") {
            return match from_utf8(b) {
                Some(body) => self.on_spake(body),
                None => Received::Nothing,
            };
        }
        if let Some(b) = strip_prefix(line, "MSGD confirm ") {
            return match from_utf8(b) {
                Some(body) => Received::Confirm { body: body.to_owned() },
                None => Received::Nothing,
            };
        }
        Received::Nothing
    }

    /// Adds the announced peer, once its keys were agreed on; returns the
    /// confirmation to send to it. Without an announcement there is none.
    pub fn add_candidate(
        &mut self,
        keys: SessionKeys,
        confirm_payload: Vec<u8>,
        now: Instant,
    ) -> (msg: Option<String>)
        requires
            old(self).wf(),
        ensures
            final(self).wf(),
            final(self)@ == old(self)@.agreed(keys, confirm_payload@, now).0,
            match msg {
                Some(m) => old(self)@.agreed(keys, confirm_payload@, now).1 == Some(m@),
                None => old(self)@.agreed(keys, confirm_payload@, now).1 is None,
            },
    {
        let ghost before = self@;
        let body: String = match self.announced.take() {
            Some(body) => body,
            None => {
                assert(self@ =~= SessionView { announced: None, ..before });
                return None;
            },
        };
        let ghost cleared = self@;
        assert(cleared =~= SessionView { announced: None, ..before });
        assert(cleared.on_spake(body@) == before.on_spake(body@)) by {
            assert forall|k: Seq<u8>| cleared.knows(k) == before.knows(k) by {
                assert(cleared.candidates == before.candidates);
            }
        }
        let (key, role): (Vec<u8>, SpakeRole) = match self.on_spake(body.as_str()) {
            Received::Spake { key, role, .. } => (key, role),
            _ => {
                return None;
            },
        };
        let msg = message(
            self.room.as_str(),
            crate::packet::Phase::Confirm,
            confirm_payload.as_slice(),
        );
        let spake = ProcessedSpake {
            effective_my_point: role.effective_my_point,
            effective_peer_point: role.effective_peer_point,
            peer_fingerprint: role.peer_fingerprint,
            is_server: role.is_server,
            confirm_key: keys.confirm_key,
            enc_key: keys.enc_key,
        };
        let c = Candidate { key, spake, confirm_payload, last_sent: now };
        let ghost v = c@;
        self.candidates.push(c);
        proof {
            assert(self@.candidates =~= before.candidates.push(v));
            assert(self@ =~= before.agreed(keys, v.confirm_payload, now).0);
            assert forall|a: int, b: int| 0 <= a < b < self.candidates@.len() implies (
            #[trigger] self@.candidates[a]).key != (#[trigger] self@.candidates[b]).key by {
                assert(self@.candidates[a] == before.candidates[a]);
                if b < before.candidates.len() {
                    assert(self@.candidates[b] == before.candidates[b]);
                }
            }
        }
        Some(msg)
    }

    /// Decides on the confirmation that came last, given what checking it
    /// against each candidate came to: the first that it checks out for is the
    /// peer. If there is none, the confirmation is kept for candidates to come.
    pub fn judge_confirm(&mut self, checks: &Vec<CheckedConfirm>) -> (r: Option<Authenticated>)
        requires
            old(self).wf(),
            checks@.len() == old(self)@.candidates.len(),
        ensures
            final(self).wf(),
            final(self)@ == old(self)@.after_judging(checks@),
            match old(self)@.judged(checks@) {
                Some(p) => r is Some && r->0@ == p,
                None => r is None,
            },
    {
        let ghost before = self@;
        let body: String = match self.confirm.take() {
            Some(body) => body,
            None => {
                assert(self@ =~= before.after_judging(checks@));
                return None;
            },
        };
        let ghost cleared = self@;
        assert(cleared =~= SessionView { confirm: None, ..before });
        let mut i: usize = 0;
        while i < self.candidates.len()
            invariant
                self.wf(),
                before == old(self)@,
                self@ == cleared,
                cleared == (SessionView { confirm: None, ..before }),
                before.confirm == Some(body@),
                checks@.len() == self.candidates@.len(),
                i <= checks@.len(),
                before.first_match(body@, checks@, i as int) is None,
            decreases checks@.len() - i,
        {
            if let Ok(addr) = process_confirm_msg(body.as_str(), &checks[i]) {
                proof {
                    lemma_first_match_kept(before, body@, checks@, i + 1, checks@.len() as int);
                }
                assert(before.candidates[i as int] == self.candidates@[i as int]@);
                let c = &self.candidates[i];
                return Some(
                    Authenticated {
                        peer_addr: addr,
                        peer_fingerprint: copy_bytes(c.spake.peer_fingerprint.as_slice()),
                        is_server: c.spake.is_server,
                    },
                );
            }
            i = i + 1;
        }
        if self.buffered.len() < MAX_BUFFERED_CONFIRMS {
            let ghost text = body@;
            self.buffered.push(body);
            assert(self@.buffered =~= before.buffered.push(text));
        }
        assert(self@.candidates =~= before.candidates);
        assert(self@ =~= before.after_judging(checks@));
        None
    }

    /// Decides on the confirmations that were kept, given what checking each
    /// against the newest candidate came to.
    pub fn judge_buffered(&self, checks: &Vec<CheckedConfirm>) -> (r: Option<Authenticated>)
        requires
            self.wf(),
            self@.candidates.len() > 0,
            checks@.len() == self@.buffered.len(),
        ensures
            match self@.judged_buffered(checks@) {
                Some(p) => r is Some && r->0@ == p,
                None => r is None,
            },
    {
        let mut i: usize = 0;
        while i < self.buffered.len()
            invariant
                self.wf(),
                self@.candidates.len() > 0,
                checks@.len() == self.buffered@.len(),
                i <= checks@.len(),
                self@.first_buffered(checks@, i as int) is None,
            decreases checks@.len() - i,
        {
            assert(self@.buffered[i as int] == self.buffered@[i as int]@);
            if let Ok(addr) = process_confirm_msg(self.buffered[i].as_str(), &checks[i]) {
                proof {
                    lemma_first_buffered_kept(self@, checks@, i + 1, checks@.len() as int);
                }
                let c = &self.candidates[self.candidates.len() - 1];
                assert(self@.candidates.last() == c@);
                return Some(
                    Authenticated {
                        peer_addr: addr,
                        peer_fingerprint: copy_bytes(c.spake.peer_fingerprint.as_slice()),
                        is_server: c.spake.is_server,
                    },
                );
            }
            i = i + 1;
        }
        None
    }
}

proof fn lemma_first_match_kept(
    s: SessionView,
    body: Seq<char>,
    checks: Seq<CheckedConfirm>,
    k: int,
    n: int,
)
    requires
        0 <= k <= n,
        s.first_match(body, checks, k) is Some,
    ensures
        s.first_match(body, checks, n) == s.first_match(body, checks, k),
    decreases n,
{
    if k < n {
        lemma_first_match_kept(s, body, checks, k, n - 1);
    }
}

proof fn lemma_first_buffered_kept(s: SessionView, checks: Seq<CheckedConfirm>, k: int, n: int)
    requires
        0 <= k <= n,
        s.first_buffered(checks, k) is Some,
    ensures
        s.first_buffered(checks, n) == s.first_buffered(checks, k),
    decreases n,
{
    if k < n {
        lemma_first_buffered_kept(s, checks, k, n - 1);
    }
}

} // verus!
