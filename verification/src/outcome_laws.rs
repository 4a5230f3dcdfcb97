//! Which role a peer takes, how copies and commands end, and how numbers of
//! bytes are shown.
use vstd::prelude::*;

use crate::clock::Duration;
use crate::copy::{
    spec_conn_close_kind, spec_copy_error_kind, spec_copy_notice, ConnFault, CopyErrorKind, IoFault,
    Pair, ReadFault, WriteFault,
};
use crate::exchange::{
    announcement, lex_less, spec_parse_spake, spec_resolve_dur, ExchangeErrorView, SpakeRoleView,
};
use crate::exec::{ChildStatus, ExecError};
use crate::exec_run::{
    after, calls_for, ends_with, first_exit, input_ended, output_open, ExecAction, ExecEvent,
    RunPhase,
};
use crate::stats::{digit, half_even, spec_format_bytes, to_53_bits};

verus! {

/// Byte strings are told apart by their first bytes that differ.
pub proof fn law_order_of_points(common: Seq<u8>, x: u8, a: Seq<u8>, y: u8, b: Seq<u8>)
    requires
        x != y,
    ensures
        lex_less(common + seq![x] + a, common + seq![y] + b) <==> x < y,
    decreases common.len(),
{
    let s = common + seq![x] + a;
    let t = common + seq![y] + b;
    if common.len() == 0 {
        assert(s[0] == x);
        assert(t[0] == y);
    } else {
        assert(s[0] == common[0]);
        assert(t[0] == common[0]);
        let c = common.drop_first();
        assert(s.drop_first() =~= c + seq![x] + a);
        assert(t.drop_first() =~= c + seq![y] + b);
        law_order_of_points(c, x, a, y, b);
    }
}

/// The peer with the larger point M is the server: at the first byte where the
/// two differ, its own is the larger one. It goes by its own point N and the
/// other's point M, and the client the other way round.
pub proof fn law_larger_point_serves(
    common: Seq<u8>,
    x: u8,
    a: Seq<u8>,
    my_n: Seq<u8>,
    y: u8,
    b: Seq<u8>,
    peer_n: Seq<u8>,
    fingerprint: Seq<u8>,
)
    requires
        x != y,
        common.len() + 1 + a.len() == 65,
        common.len() + 1 + b.len() == 65,
        peer_n.len() == 65,
        fingerprint.len() == 32,
    ensures
        ({
            let my_m = common + seq![x] + a;
            let peer_m = common + seq![y] + b;
            spec_parse_spake(
                crate::hex::spec_to_hex(announcement(peer_m, peer_n, fingerprint)),
                my_m,
                my_n,
            ) == Ok::<SpakeRoleView, ExchangeErrorView>(
                if x > y {
                    SpakeRoleView {
                        my_point: my_n,
                        peer_point: peer_m,
                        peer_fingerprint: fingerprint,
                        is_server: true,
                    }
                } else {
                    SpakeRoleView {
                        my_point: my_m,
                        peer_point: peer_n,
                        peer_fingerprint: fingerprint,
                        is_server: false,
                    }
                },
            )
        }),
{
    let my_m = common + seq![x] + a;
    let peer_m = common + seq![y] + b;
    let p = announcement(peer_m, peer_n, fingerprint);
    crate::hex::law_hex_round_trip(p);
    law_order_of_points(common, y, b, x, a);
    assert(p.subrange(0, 65) =~= peer_m);
    assert(p.subrange(65, 130) =~= peer_n);
    assert(p.subrange(130, 162) =~= fingerprint);
    assert(my_m[common.len() as int] == x);
    assert(peer_m[common.len() as int] == y);
}

/// A span that is set counts before the environment, and the environment
/// before the default. A span of zero is not set.
pub proof fn law_span_set(d: Duration, n: nat, def_ms: u64)
    requires
        0 < n <= 9_223_372_036_854_775,
    ensures
        ({
            let var = Some(crate::number::spec_decimal(n));
            let unset = Duration { nanos: 0 };
            &&& d.nanos > 0 ==> spec_resolve_dur(Some(d), var, def_ms) == d
            &&& spec_resolve_dur(None, var, def_ms).nanos == n * 1_000_000
            &&& spec_resolve_dur(Some(unset), var, def_ms).nanos == n * 1_000_000
            &&& spec_resolve_dur(None, None, def_ms).nanos == def_ms * 1_000_000
            &&& spec_resolve_dur(Some(unset), None, def_ms).nanos == def_ms * 1_000_000
        }),
{
    crate::setting_laws::law_span_is_taken(n, Seq::empty(), def_ms);
}

/// A connection that the peer closes with code 0 and one that this side closes
/// ended as expected. Any other close by the peer, and its silence, are a
/// disconnect. What is left is an error.
pub proof fn law_ends_of_connections(code: u64)
    ensures
        spec_conn_close_kind(ConnFault::ApplicationClosed(code)) == if code == 0 {
            CopyErrorKind::Benign
        } else {
            CopyErrorKind::Disconnect
        },
        spec_conn_close_kind(ConnFault::LocallyClosed) == CopyErrorKind::Benign,
        spec_conn_close_kind(ConnFault::ConnectionClosed) == CopyErrorKind::Disconnect,
        spec_conn_close_kind(ConnFault::TransportError) == CopyErrorKind::Disconnect,
        spec_conn_close_kind(ConnFault::Reset) == CopyErrorKind::Disconnect,
        spec_conn_close_kind(ConnFault::TimedOut) == CopyErrorKind::Disconnect,
        spec_conn_close_kind(ConnFault::VersionMismatch) == CopyErrorKind::Error,
        spec_conn_close_kind(ConnFault::CidsExhausted) == CopyErrorKind::Error,
{
}

/// A copy that fails with the connection ends as the connection does. A stream
/// closed here and a pipe closed at the other end are expected; a stream that
/// the peer breaks off is an error.
pub proof fn law_ends_of_copies(c: ConnFault)
    ensures
        spec_copy_error_kind(IoFault::Connection(c)) == spec_conn_close_kind(c),
        spec_copy_error_kind(IoFault::Read(ReadFault::ConnectionLost(c))) == spec_conn_close_kind(
            c,
        ),
        spec_copy_error_kind(IoFault::Write(WriteFault::ConnectionLost(c)))
            == spec_conn_close_kind(c),
        spec_copy_error_kind(IoFault::Read(ReadFault::ClosedStream)) == CopyErrorKind::Benign,
        spec_copy_error_kind(IoFault::Write(WriteFault::ClosedStream)) == CopyErrorKind::Benign,
        spec_copy_error_kind(IoFault::BrokenPipe) == CopyErrorKind::Benign,
        spec_copy_error_kind(IoFault::ConnectionAborted) == CopyErrorKind::Benign,
        spec_copy_error_kind(IoFault::TimedOut) == CopyErrorKind::Timeout,
        spec_copy_error_kind(IoFault::Read(ReadFault::Reset)) == CopyErrorKind::Error,
        spec_copy_error_kind(IoFault::Write(WriteFault::Stopped)) == CopyErrorKind::Error,
        spec_copy_error_kind(IoFault::Read(ReadFault::IllegalOrderedRead)) == CopyErrorKind::Error,
        spec_copy_error_kind(IoFault::Read(ReadFault::ZeroRttRejected)) == CopyErrorKind::Error,
        spec_copy_error_kind(IoFault::Write(WriteFault::ZeroRttRejected)) == CopyErrorKind::Error,
        spec_copy_error_kind(IoFault::Other) == CopyErrorKind::Error,
{
}

/// Nothing is logged of a copy that ended as expected. Only an error is logged
/// as one, and whatever is logged ends with what went wrong.
pub proof fn law_log_of_copies(dir: Seq<char>, err: IoFault, msg: Seq<char>)
    ensures
        ({
            let n = spec_copy_notice(dir, err, msg);
            let kind = spec_copy_error_kind(err);
            &&& n is None <==> kind == CopyErrorKind::Benign
            &&& n is Some ==> ((n->0).0 <==> kind == CopyErrorKind::Error)
            &&& n is Some ==> (n->0).1.len() >= msg.len() && (n->0).1.skip(
                (n->0).1.len() - msg.len(),
            ) == msg
        }),
{
    let n = spec_copy_notice(dir, err, msg);
    if n is Some {
        assert((n->0).1.skip((n->0).1.len() - msg.len()) =~= msg);
    }
}

/// A pipe that waits in vain fails unless the peer has left or this side has
/// closed the connection.
pub proof fn law_waiting_in_vain(e: ConnFault)
    ensures
        crate::pipe::spec_close_is_failure(e) <==> e == ConnFault::VersionMismatch || e
            == ConnFault::CidsExhausted,
{
}

/// A pair of copies after some sightings.
pub open spec fn pair_after(seen: Seq<(bool, bool)>) -> Pair
    decreases seen.len(),
{
    if seen.len() == 0 {
        Pair { out_done: false, in_done: false, fired: false }
    } else {
        pair_after(seen.drop_last()).after(seen.last().0, seen.last().1)
    }
}

/// The outbound copy was seen to be done.
pub open spec fn out_seen(seen: Seq<(bool, bool)>) -> bool {
    exists|i: int| 0 <= i < seen.len() && (#[trigger] seen[i]).0
}

/// The inbound copy was seen to be done.
pub open spec fn in_seen(seen: Seq<(bool, bool)>) -> bool {
    exists|i: int| 0 <= i < seen.len() && (#[trigger] seen[i]).1
}

proof fn lemma_pair(seen: Seq<(bool, bool)>)
    ensures
        pair_after(seen).out_done == out_seen(seen),
        pair_after(seen).in_done == in_seen(seen),
        pair_after(seen).fired == (out_seen(seen) || in_seen(seen)),
    decreases seen.len(),
{
    if seen.len() > 0 {
        let t = seen.drop_last();
        lemma_pair(t);
        lemma_seen_before(seen);
    }
}

proof fn lemma_seen_before(seen: Seq<(bool, bool)>)
    requires
        seen.len() > 0,
    ensures
        out_seen(seen) == (out_seen(seen.drop_last()) || seen.last().0),
        in_seen(seen) == (in_seen(seen.drop_last()) || seen.last().1),
{
    let t = seen.drop_last();
    if out_seen(t) {
        let i = choose|i: int| 0 <= i < t.len() && (#[trigger] t[i]).0;
        assert(seen[i].0);
    }
    if in_seen(t) {
        let i = choose|i: int| 0 <= i < t.len() && (#[trigger] t[i]).1;
        assert(seen[i].1);
    }
    if seen.last().0 {
        assert(seen[seen.len() - 1].0);
    }
    if seen.last().1 {
        assert(seen[seen.len() - 1].1);
    }
    if out_seen(seen) && !seen.last().0 {
        let i = choose|i: int| 0 <= i < seen.len() && (#[trigger] seen[i]).0;
        assert(t[i].0);
    }
    if in_seen(seen) && !seen.last().1 {
        let i = choose|i: int| 0 <= i < seen.len() && (#[trigger] seen[i]).1;
        assert(t[i].1);
    }
}

/// A pair of copies is finished when both were seen to be done, in whatever
/// order. The first end closes both; the end of the inbound copy alone stops
/// the outbound one.
pub proof fn law_pair_of_copies(seen: Seq<(bool, bool)>)
    requires
        seen.len() > 0,
    ensures
        ({
            let before = seen.drop_last();
            let a = pair_after(before).action(seen.last().0, seen.last().1);
            &&& a.finished <==> out_seen(seen) && in_seen(seen)
            &&& a.stop_out <==> in_seen(seen) && !out_seen(seen)
            &&& a.interrupt <==> (out_seen(seen) || in_seen(seen)) && !out_seen(before) && !in_seen(
                before,
            )
        }),
{
    lemma_pair(seen.drop_last());
    lemma_seen_before(seen);
}

proof fn lemma_course(events: Seq<ExecEvent>)
    requires
        output_open(events),
    ensures
        after(events).exit == first_exit(events),
        after(events).input_done == input_ended(events),
        after(events).phase == if first_exit(events) is None {
            RunPhase::Running
        } else if input_ended(events) {
            RunPhase::Collecting
        } else {
            RunPhase::Draining
        },
    decreases events.len(),
{
    if events.len() > 0 {
        let before = events.drop_last();
        assert forall|i: int| 0 <= i < before.len() implies !(#[trigger] before[i] is OutputDone) by {
            assert(before[i] == events[i]);
        }
        lemma_course(before);
        assert(!(events[events.len() - 1] is OutputDone));
        if input_ended(before) {
            let i = choose|i: int| 0 <= i < before.len() && #[trigger] before[i] is InputDone;
            assert(events[i] is InputDone);
        }
        if input_ended(events) && !(events.last() is InputDone) {
            let i = choose|i: int| 0 <= i < events.len() && #[trigger] events[i] is InputDone;
            assert(before[i] is InputDone);
        }
        if events.last() is InputDone {
            assert(events[events.len() - 1] is InputDone);
        }
    }
}

/// The course of a command: told to stop, it is killed while it runs. When it
/// has ended, the rest of the peer's data is waited for, but not for ever, and
/// then its output.
pub proof fn law_course_of_a_command(events: Seq<ExecEvent>, s: ChildStatus, a: ExecAction)
    requires
        output_open(events),
    ensures
        ({
            let ended = first_exit(events) is Some;
            let taken_in = input_ended(events);
            let now = after(events);
            &&& calls_for(now, ExecEvent::Stop, a) ==> {
                &&& !ended ==> a is Kill
                &&& ended && !taken_in ==> a is StopInput
                &&& ended && taken_in ==> a is Nothing
            }
            &&& calls_for(now, ExecEvent::Exited(s), a) ==> {
                &&& !ended && !taken_in ==> a is Drain
                &&& !ended && taken_in ==> a is Collect
                &&& ended ==> a is Nothing
            }
            &&& calls_for(now, ExecEvent::InputDone, a) ==> {
                &&& ended && !taken_in ==> a is Collect
                &&& !ended || taken_in ==> a is Nothing
            }
            &&& calls_for(now, ExecEvent::DrainExpired, a) ==> {
                &&& ended && !taken_in ==> a is StopInput
                &&& !ended || taken_in ==> a is Nothing
            }
        }),
{
    lemma_course(events);
}

/// A command succeeds just when it ends with status 0 and its output has
/// passed. Another status is the failure, and so is a signal.
pub proof fn law_outcome_of_a_command(exit: ChildStatus, output: Option<String>, r: Result<(), ExecError>)
    requires
        ends_with(exit, output, r),
    ensures
        r is Ok <==> output is None && exit is Exited && exit->Exited_0 == 0,
        output is None && exit is Exited && exit->Exited_0 != 0 ==> r is Err && r->Err_0 is Exit
            && r->Err_0->Exit_0 == exit->Exited_0,
        output is None && exit is Signaled ==> r is Err && r->Err_0 is Killed,
        output is None && exit is Unknown ==> r is Err && r->Err_0 is Other,
        output is Some ==> r is Err && r->Err_0 is Other,
{
}

/// The status that a command failed with is told with its sign.
pub proof fn law_status_is_told(code: i32)
    ensures
        code >= 0 ==> ExecError::Exit(code).spec_message() == "exit status "@
            + crate::number::spec_decimal(code as nat),
        code < 0 ==> ExecError::Exit(code).spec_message() == "exit status "@ + (seq!['-']
            + crate::number::spec_decimal((-code) as nat)),
{
    reveal_strlit("-");
    assert("-"@ =~= seq!['-']);
}

/// A text of hundredths of a unit: a whole number, a point, and two digits.
pub open spec fn hundredths_text(h: nat) -> Seq<char> {
    crate::number::spec_decimal(h / 100) + seq!['.'] + seq![
        (48 + h / 10 % 10) as char,
        (48 + h % 10) as char,
    ]
}

/// A number of bytes is shown as it is below 1024, and above that in kilobytes,
/// megabytes or gigabytes of 1024 each, with two digits behind the point. What
/// is shown is at most half a hundredth of the unit off.
pub proof fn law_bytes_shown(n: nat) -> (h: nat)
    requires
        n < 0x20_0000_0000_0000,
    ensures
        ({
            let s = spec_format_bytes(n as int);
            let unit = if n < 1_048_576 {
                1024nat
            } else if n < 1_073_741_824 {
                1_048_576
            } else {
                1_073_741_824
            };
            &&& n < 1024 ==> s == crate::number::spec_decimal(n) + " B"@
            &&& 1024 <= n < 1_048_576 ==> s == hundredths_text(h) + " KB"@
            &&& 1_048_576 <= n < 1_073_741_824 ==> s == hundredths_text(h) + " MB"@
            &&& 1_073_741_824 <= n ==> s == hundredths_text(h) + " GB"@
            &&& 2 * (h * unit) <= 200 * n + unit
            &&& 200 * n <= 2 * (h * unit) + unit
        }),
{
    let unit: nat = if n < 1_048_576 {
        1024
    } else if n < 1_073_741_824 {
        1_048_576
    } else {
        1_073_741_824
    };
    crate::stats::law_shown_is_near(n, unit);
    assert(to_53_bits(n) == n);
    let h = half_even(n * 100, unit);
    reveal_strlit(".");
    assert("."@ =~= seq!['.']);
    assert(crate::stats::spec_hundredths(h) =~= hundredths_text(h)) by {
        assert(digit(h / 10 % 10) == (48 + h / 10 % 10) as char);
        assert(digit(h % 10) == (48 + h % 10) as char);
    }
    h
}

/// Each byte is two characters of its hexadecimal text, from the digits `0` to
/// `9` and `a` to `f`, the higher half first.
pub proof fn law_hex_text(s: Seq<u8>, i: int)
    requires
        0 <= i < s.len(),
    ensures
        ({
            let digits = seq![
                '0',
                '1',
                '2',
                '3',
                '4',
                '5',
                '6',
                '7',
                '8',
                '9',
                'a',
                'b',
                'c',
                'd',
                'e',
                'f',
            ];
            &&& crate::hex::spec_to_hex(s).len() == 2 * s.len()
            &&& crate::hex::spec_to_hex(s)[2 * i] == digits[s[i] as int / 16]
            &&& crate::hex::spec_to_hex(s)[2 * i + 1] == digits[s[i] as int % 16]
        }),
{
}

/// A signature counts just when it is one of ECDSA with P-256 and SHA-256, the
/// certificate can be read, and nothing is wrong with the signature.
pub proof fn law_signature_accepted(scheme: u16, readable: bool, fault: Option<Seq<char>>)
    ensures
        crate::transport::spec_signature_verdict(scheme, readable, fault) is None <==> scheme
            == 0x0403 && readable && fault is None,
{
}

/// Milliseconds are carried as they are as far as 32 bits hold them, and as the
/// greatest such number beyond.
pub proof fn law_millis_carried(ms: nat)
    requires
        ms <= 0xffff_ffff_ffff_ffff,
    ensures
        crate::transport::spec_millis_varint(Duration { nanos: (ms * 1_000_000) as u128 }) == if ms
            <= 0xffff_ffff {
            ms as int
        } else {
            0xffff_ffff
        },
{
}

/// What the user is told when a peer refuses names the address that the peer
/// would have to allow: the target of a tunnel of type `L`, the listening
/// address of one of type `R`.
pub proof fn law_advice(q: crate::tunnel_request::RequestView, no_color: bool)
    ensures
        ({
            let l = crate::tunnel_log::spec_notice_text(
                crate::tunnel::Notice::PeerRejectedLocal,
                q,
                no_color,
            );
            let r = crate::tunnel_log::spec_notice_text(
                crate::tunnel::Notice::PeerRejectedRemote,
                q,
                no_color,
            );
            let i = crate::tunnel_log::spec_notice_text(
                crate::tunnel::Notice::IgnoringPeer,
                q,
                no_color,
            );
            let f = crate::tunnel_log::spec_notice_text(
                crate::tunnel::Notice::Forwarding,
                q,
                true,
            );
            &&& l == Some(
                (
                    true,
                    "Peer rejected -L "@ + (q.listen + " -> "@ + q.target)
                        + " (peer must run with -aF "@ + q.target + " to allow)"@,
                ),
            )
            &&& r == Some(
                (
                    true,
                    "Peer rejected -R "@ + (q.listen + " -> "@ + q.target)
                        + " (peer must run with -aL "@ + q.listen + " to allow)"@,
                ),
            )
            &&& i is Some && (i->0).0
            &&& f == Some((false, "Tunnel forwarding to "@ + q.target))
            &&& crate::tunnel_log::spec_notice_text(crate::tunnel::Notice::Nothing, q, no_color)
                is None
        }),
{
}

/// A negative number of bytes is shown as bytes, with its sign.
pub proof fn law_negative_bytes_shown(n: nat)
    requires
        0 < n < 0x20_0000_0000_0000,
    ensures
        spec_format_bytes(-(n as int)) == seq!['-'] + crate::number::spec_decimal(n) + seq![' ', 'B'],
{
    crate::stats::law_shown_is_near(n, 1024);
    reveal_strlit("-");
    reveal_strlit(" B");
    assert("-"@ =~= seq!['-']);
    assert(" B"@ =~= seq![' ', 'B']);
}

/// What lies in the middle between two hundredths is shown as the even one.
pub proof fn law_ties_to_even(q: nat)
    ensures
        half_even(q * 1024 + 512, 1024) % 2 == 0,
        half_even(q * 1_048_576 + 524_288, 1_048_576) % 2 == 0,
        half_even(q * 1_073_741_824 + 536_870_912, 1_073_741_824) % 2 == 0,
{
}

} // verus!
