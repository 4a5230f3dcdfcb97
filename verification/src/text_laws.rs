//! What lines, lists and logs look like, and what a certificate holds.
use vstd::prelude::*;

use crate::address_laws::{lacks, law_pieces};
use crate::cert::{spec_cert_plan, Authority, KeyUsage};
use crate::connect::ConnectError;
use crate::exchange::{exchange_error_text, ExchangeError, ExchangeErrorView};
use crate::exec::ExecError;
use crate::model::DropReason;
use crate::pipe::PipeError;
use crate::tunnel::TunnelError;
use crate::tunnel_allow::spec_full_dotted;
use crate::tunnel_config::{accept_step, AcceptView, ReaderView, StepView};
use crate::tunnel_request::{without_eol, RequestErrorView};

verus! {

/// A group of an address in full: one digit to three, without a zero before
/// others.
pub open spec fn is_group(s: Seq<char>) -> bool {
    1 <= s.len() <= 3 && (s.len() > 1 ==> s[0] != '0')
}

/// An address is written in full when it has four groups, between dots, and
/// each is a short number without a zero in front.
pub proof fn law_written_in_full(a: Seq<char>, b: Seq<char>, c: Seq<char>, d: Seq<char>)
    requires
        lacks(a, '.'),
        lacks(b, '.'),
        lacks(c, '.'),
        lacks(d, '.'),
    ensures
        spec_full_dotted(a + seq!['.'] + b + seq!['.'] + c + seq!['.'] + d) <==> is_group(a)
            && is_group(b) && is_group(c) && is_group(d),
        !spec_full_dotted(a),
        !spec_full_dotted(a + seq!['.'] + b),
        !spec_full_dotted(a + seq!['.'] + b + seq!['.'] + c),
{
    let ab = a + seq!['.'] + b;
    let abc = ab + seq!['.'] + c;
    let s = abc + seq!['.'] + d;
    law_pieces(a, a, '.');
    law_pieces(a, b, '.');
    law_pieces(ab, c, '.');
    law_pieces(abc, d, '.');
    let g = crate::text::split_on(s, '.');
    assert(g =~= seq![a, b, c, d]);
    assert(g[0] == a && g[1] == b && g[2] == c && g[3] == d);
}

/// The end of a line is a line feed, or a carriage return and a line feed; no
/// more than one of each is taken off.
pub proof fn law_ends_of_lines(line: Seq<u8>)
    ensures
        (line.len() == 0 || (line.last() != 10 && line.last() != 13)) ==> {
            &&& without_eol(line) == line
            &&& without_eol(line + seq![10u8]) == line
            &&& without_eol(line + seq![13u8, 10u8]) == line
            &&& without_eol(line + seq![13u8]) == line
        },
        without_eol(line + seq![10u8, 10u8]) == line + seq![10u8],
{
    assert((line + seq![10u8]).drop_last() =~= line);
    assert((line + seq![13u8]).drop_last() =~= line);
    assert((line + seq![13u8, 10u8]).drop_last() =~= line + seq![13u8]);
    assert((line + seq![10u8, 10u8]).drop_last() =~= line + seq![10u8]);
    assert((line + seq![10u8]).last() == 10);
    assert((line + seq![13u8]).last() == 13);
    assert((line + seq![13u8, 10u8]).last() == 10);
    assert((line + seq![10u8, 10u8]).last() == 10);
}

/// A line of a list may have 4096 bytes and no more. Its bytes are gathered
/// until it ends, and the requests before it stay as they are.
pub proof fn law_lines_gathered(r: ReaderView, b: u8)
    requires
        b != 10,
    ensures
        r.line.len() < 4096 ==> r.step(b) == (
            ReaderView { line: r.line.push(b), reqs: r.reqs },
            StepView::More,
        ),
        r.line.len() >= 4096 ==> r.step(b).1 is Failed,
{
}

/// A list ends with the line `END` or with its last byte. A request beyond the
/// hundredth is refused.
pub proof fn law_ends_of_lists(r: ReaderView, line: Seq<u8>)
    ensures
        ({
            let text = crate::text::lossy_text(without_eol(line));
            let (t, s) = r.end_line(line);
            &&& text == seq!['E', 'N', 'D'] ==> s is Done && t.reqs == r.reqs
            &&& text != seq!['E', 'N', 'D'] && r.reqs.len() >= 100 ==> s == StepView::Failed(
                RequestErrorView::TooMany,
            )
            &&& text != seq!['E', 'N', 'D'] && r.reqs.len() < 100 ==> match crate::tunnel_config::spec_parse_line(
            text) {
                Ok(q) => s is More && t.reqs == r.reqs.push(q) && t.line.len() == 0,
                Err(e) => s == StepView::Failed(e),
            }
        }),
        r.line.len() == 0 ==> r.at_end() == (r, StepView::Done),
        r.line.len() > 0 && r.end_line(r.line).1 is More ==> r.at_end().1 is Done
            && r.at_end().0 == r.end_line(r.line).0,
{
    reveal_strlit("END");
    assert("END"@ =~= seq!['E', 'N', 'D']);
}

/// Whether a peer accepts requests stands on a line of its own, which is one of
/// two. Any other line, an endless one, and none at all are refused.
pub proof fn law_acceptance_line(line: Seq<u8>, b: u8)
    ensures
        ({
            let text = crate::text::lossy_text(without_eol(line));
            let v = accept_step(line, Some(10u8)).1;
            &&& v == AcceptView::Done(true) <==> text == "ACCEPT true"@
            &&& v == AcceptView::Done(false) <==> text == "ACCEPT false"@
            &&& text != "ACCEPT true"@ && text != "ACCEPT false"@ ==> v is Failed
        }),
        accept_step(line, None).1 is Failed,
        b != 10 && line.len() < 4096 ==> accept_step(line, Some(b)) == (
            line.push(b),
            AcceptView::More,
        ),
        b != 10 && line.len() >= 4096 ==> accept_step(line, Some(b)).1 is Failed,
{
    reveal_strlit("ACCEPT true");
    reveal_strlit("ACCEPT false");
    assert("ACCEPT true"@.len() != "ACCEPT false"@.len());
}

/// A certificate is one of an end entity, made out to its name, for digital
/// signatures as a TLS server and as a TLS client. Its serial number is the
/// random one but for the first bit.
pub proof fn law_contents_of_a_certificate(name: Seq<char>, random: Seq<u8>, now: i64, i: int)
    requires
        random.len() == 16,
        0 < i < 16,
        -62_167_219_200 <= now <= 253_370_764_799,
    ensures
        ({
            let p = spec_cert_plan(name, random, now);
            &&& p.common_name == name
            &&& p.organization == "qvole"@
            &&& p.serial.len() == 16
            &&& p.serial[i] == random[i]
            &&& p.serial[0] == random[0] % 128
            &&& p.not_before == now
            &&& p.not_after == now + 31_536_000
            &&& p.authority == Authority::EndEntity
            &&& p.key_usage == KeyUsage::DigitalSignature
            &&& p.extended_usages.len() == 2
            &&& p.extended_usages[0] == seq![1u64, 3, 6, 1, 5, 5, 7, 3, 1]
            &&& p.extended_usages[1] == seq![1u64, 3, 6, 1, 5, 5, 7, 3, 2]
        }),
{
    let b: u8 = random[0];
    assert(b & 0x7f == b % 128) by (bit_vector);
    assert(crate::cert::server_auth() =~= seq![1u64, 3, 6, 1, 5, 5, 7, 3, 1]);
    assert(crate::cert::client_auth() =~= seq![1u64, 3, 6, 1, 5, 5, 7, 3, 2]);
}

/// The hash of nothing is the offset basis of 32-bit FNV-1a. One more byte is
/// combined with the hash before it by exclusive or, and the whole multiplied
/// by the prime.
pub proof fn law_hash(s: Seq<u8>, b: u8)
    ensures
        crate::room::spec_fnv1a32(Seq::empty()) == 2_166_136_261,
        crate::room::spec_fnv1a32(s.push(b)) == ((crate::room::spec_fnv1a32(s) ^ (b as u32))
            * 16_777_619) % 4_294_967_296,
{
    assert(s.push(b).drop_last() =~= s);
}

/// The tag of a log line keeps its name, and blanks fill it up to ten
/// characters.
pub proof fn law_tags(prefix: Seq<char>)
    ensures
        ({
            let t = crate::logger::spec_tag(prefix);
            &&& t.len() == if prefix.len() < 10 {
                10
            } else {
                prefix.len()
            }
            &&& t.take(prefix.len() as int) == prefix
            &&& forall|i: int| prefix.len() <= i < t.len() ==> #[trigger] t[i] == ' '
        }),
{
    assert(crate::logger::spec_tag(prefix).take(prefix.len() as int) =~= prefix);
}

/// A log line begins with the time and ends with the message; between them
/// stands the tag.
pub proof fn law_log_line(
    prefix: Seq<char>,
    color: Seq<char>,
    msg_color: Seq<char>,
    msg: Seq<char>,
    ts: Seq<char>,
)
    ensures
        crate::logger::spec_line(prefix, color, msg_color, msg, ts, true) == ts + seq![' ', ' ']
            + crate::logger::spec_tag(prefix) + seq![' ', ' '] + msg,
        crate::logger::spec_bold(msg, true) == msg,
        crate::logger::spec_bold(msg, false) == seq!['\u{1b}', '[', '1', 'm'] + msg + seq![
            '\u{1b}',
            '[',
            '0',
            'm',
        ],
{
    reveal_strlit("  ");
    reveal_strlit("\u{1b}[1m");
    reveal_strlit("\u{1b}[0m");
    assert("  "@ =~= seq![' ', ' ']);
    assert("\u{1b}[1m"@ =~= seq!['\u{1b}', '[', '1', 'm']);
    assert("\u{1b}[0m"@ =~= seq!['\u{1b}', '[', '0', 'm']);
}

/// `part` stands in `s` at `at`.
pub open spec fn stands_at(s: Seq<char>, part: Seq<char>, at: int) -> bool {
    0 <= at && at + part.len() <= s.len() && s.subrange(at, at + part.len()) == part
}

/// What is logged of a drop names the sender, unless the relay is full, which
/// is no sender's fault.
pub proof fn law_drop_names_sender(
    reason: DropReason,
    data: Seq<u8>,
    src: Seq<char>,
    max: nat,
) -> (at: int)
    requires
        reason != DropReason::MaxRooms,
    ensures
        stands_at(crate::drop_log::spec_drop_text(reason, data, src, max), src, at),
{
    let room = crate::text::lossy_text(crate::drop_log::room_named(data));
    let unknown = crate::text::lossy_text(crate::drop_log::unknown_named(data));
    let text = crate::drop_log::spec_drop_text(reason, data, src, max);
    let head = match reason {
        DropReason::Oversized => "Dropped oversized datagram ("@ + crate::number::spec_decimal(
            data.len(),
        ) + " bytes) from "@,
        DropReason::EmptyRoom => "Dropped REG with empty room from "@,
        DropReason::InvalidRoom => "Dropped REG with invalid room "@ + crate::text::quoted_text(
            room,
        ) + " from "@,
        DropReason::UnknownType => "Dropped unknown packet type from "@,
        DropReason::InvalidCookie => "Dropped REG with invalid cookie from "@,
        DropReason::MismatchedCookieInStore => "Dropped REG with mismatched cookie from "@,
        DropReason::MismatchedCookieInRoom => "Dropped REG with mismatched cookie from "@,
        DropReason::RateLimitedReg => "Rate-limited REG from "@,
        DropReason::RoomLimitPerIp(_) => "Room limit per IP reached for "@,
        DropReason::PendingLimitPerIp => "Pending limit per IP reached for "@,
        DropReason::PendingStoreFull => "Pending store full for "@,
        DropReason::HardCap(_) => "Room "@ + room + " at hard cap ("@ + crate::number::spec_decimal(
            max,
        ) + "), rejecting "@,
        DropReason::MaxRooms => ""@,
        DropReason::MalformedMsg => "Dropped malformed MSG from "@,
        DropReason::MsgUnknownPhase => "Dropped MSG with unknown phase "@
            + crate::text::quoted_text(unknown) + " from "@,
        DropReason::MsgInvalidRoom => "Dropped MSG with invalid room "@ + crate::text::quoted_text(
            room,
        ) + " from "@,
        DropReason::MsgInvalidBody => "Dropped MSG with invalid body from "@,
        DropReason::MsgUnknownRoom => "Dropped MSG for unknown room "@ + room + " from "@,
        DropReason::MsgUnregistered => "Dropped message from unregistered client "@,
        DropReason::RateLimitedMsg => "Rate-limited MSG from "@,
    };
    let at = head.len() as int;
    assert(text.subrange(at, at + src.len()) =~= src);
    at
}

/// What is told at the end of a transfer: what was sent, then what was
/// received.
pub proof fn law_totals(tx: int, rx: int)
    ensures
        crate::stats::total_text(tx, rx, true) == seq!['T', 'o', 't', 'a', 'l', ':', ' ', '↑', ' ']
            + crate::stats::spec_format_bytes(tx) + seq![' ', ' ', '↓', ' ']
            + crate::stats::spec_format_bytes(rx),
{
    reveal_strlit("Total: ↑ ");
    reveal_strlit("  ↓ ");
    assert("Total: ↑ "@ =~= seq!['T', 'o', 't', 'a', 'l', ':', ' ', '↑', ' ']);
    assert("  ↓ "@ =~= seq![' ', ' ', '↓', ' ']);
}

/// A report tells what was sent and at which rate, then what was received and
/// at which.
pub proof fn law_reports(tx: int, tx_rate: Seq<char>, rx: int, rx_rate: Seq<char>)
    ensures
        crate::stats::report_text(tx, tx_rate, rx, rx_rate, true) == seq!['↑', ' ']
            + crate::stats::spec_format_bytes(tx) + seq![' ', '('] + tx_rate + seq![
            ')',
            ' ',
            ' ',
            '↓',
            ' ',
        ] + crate::stats::spec_format_bytes(rx) + seq![' ', '('] + rx_rate + seq![')'],
{
    reveal_strlit("↑ ");
    reveal_strlit(" (");
    reveal_strlit(")  ↓ ");
    reveal_strlit(")");
    assert("↑ "@ =~= seq!['↑', ' ']);
    assert(" ("@ =~= seq![' ', '(']);
    assert(")  ↓ "@ =~= seq![')', ' ', ' ', '↓', ' ']);
    assert(")"@ =~= seq![')']);
}

/// A read from the local input gives all that is there, as far as there is
/// room for it.
pub proof fn law_as_much_as_fits(n: nat, room: nat)
    ensures
        crate::stdin_reader::at_most(n, room) <= n,
        crate::stdin_reader::at_most(n, room) <= room,
        crate::stdin_reader::at_most(n, room) == n || crate::stdin_reader::at_most(n, room) == room,
{
}

/// `s` ends with `tail`.
pub open spec fn tells(s: Seq<char>, tail: Seq<char>) -> bool {
    s.len() >= tail.len() && s.skip(s.len() - tail.len()) == tail
}

/// The text of a failed exchange ends with what went wrong.
pub proof fn law_failed_exchange_tells_why(m: Seq<char>)
    ensures
        tells(exchange_error_text(ExchangeErrorView::Spake2State(m)), m),
        tells(exchange_error_text(ExchangeErrorView::Hex(m)), m),
        exchange_error_text(ExchangeErrorView::Wire(m)) == m,
        tells(exchange_error_text(ExchangeErrorView::DeriveKey(m)), m),
        tells(exchange_error_text(ExchangeErrorView::ComputeConfirm(m)), m),
        tells(exchange_error_text(ExchangeErrorView::EncryptAddr(m)), m),
        tells(exchange_error_text(ExchangeErrorView::DecryptAddr(m)), m),
        tells(exchange_error_text(ExchangeErrorView::RelayRead(m)), m),
{
    assert(("spake2 state: "@ + m).skip("spake2 state: "@.len() as int) =~= m);
    assert(("encoding/hex: "@ + m).skip("encoding/hex: "@.len() as int) =~= m);
    assert(("spake2 derive key: "@ + m).skip("spake2 derive key: "@.len() as int) =~= m);
    assert(("compute confirm: "@ + m).skip("compute confirm: "@.len() as int) =~= m);
    assert(("encrypt addr: "@ + m).skip("encrypt addr: "@.len() as int) =~= m);
    assert(("decrypt peer addr: "@ + m).skip("decrypt peer addr: "@.len() as int) =~= m);
    assert(("relay read: "@ + m).skip("relay read: "@.len() as int) =~= m);
}

/// The text of a connection that failed ends with what went wrong.
pub proof fn law_failed_connection_tells_why(m: String, e: ExchangeError)
    ensures
        tells(ConnectError::GenerateCode(m).spec_message(), m@),
        tells(ConnectError::GenerateCert(m).spec_message(), m@),
        tells(ConnectError::ResolveRelay(m).spec_message(), m@),
        tells(ConnectError::DialRelay(m).spec_message(), m@),
        tells(ConnectError::Exchange(e).spec_message(), exchange_error_text(e@)),
        tells(ConnectError::Rebind(m).spec_message(), m@),
        tells(ConnectError::ResolvePeer(m).spec_message(), m@),
        tells(ConnectError::InvalidPeerAddr(m).spec_message(), m@),
        tells(ConnectError::Listen(m).spec_message(), m@),
        tells(ConnectError::Accept(m).spec_message(), m@),
        tells(ConnectError::Dial(m).spec_message(), m@),
{
    let t = exchange_error_text(e@);
    assert(("generate code: "@ + m@).skip("generate code: "@.len() as int) =~= m@);
    assert(("generate cert: "@ + m@).skip("generate cert: "@.len() as int) =~= m@);
    assert(("resolve relay: "@ + m@).skip("resolve relay: "@.len() as int) =~= m@);
    assert(("dial relay: "@ + m@).skip("dial relay: "@.len() as int) =~= m@);
    assert(("exchange: "@ + t).skip("exchange: "@.len() as int) =~= t);
    assert(("re-bind for QUIC: "@ + m@).skip("re-bind for QUIC: "@.len() as int) =~= m@);
    assert(("resolve peer: "@ + m@).skip("resolve peer: "@.len() as int) =~= m@);
    assert(("invalid peer address: "@ + m@).skip("invalid peer address: "@.len() as int) =~= m@);
    assert(("listen: "@ + m@).skip("listen: "@.len() as int) =~= m@);
    assert(("accept: "@ + m@).skip("accept: "@.len() as int) =~= m@);
    assert(("dial: "@ + m@).skip("dial: "@.len() as int) =~= m@);
}

/// A pipe, a command and a tunnel that fail with the connection say the same of
/// it, and a stop is told as one.
pub proof fn law_failures_alike(m: String)
    ensures
        PipeError::Connect(m).spec_message() == m@,
        ExecError::Connect(m).spec_message() == m@,
        TunnelError::Connect(m).spec_message() == m@,
        PipeError::Quic(m).spec_message() == ExecError::Quic(m).spec_message(),
        tells(PipeError::Quic(m).spec_message(), m@),
        PipeError::Canceled.spec_message() == "canceled"@,
        ExecError::Canceled.spec_message() == "canceled"@,
        TunnelError::Canceled.spec_message() == "canceled"@,
        ExecError::Other(m).spec_message() == m@,
        TunnelError::Other(m).spec_message() == m@,
        crate::options::LibError::Validation(m).spec_message() == m@,
{
    assert(("quic: "@ + m@).skip("quic: "@.len() as int) =~= m@);
}

/// A port that turned out to be another one is told after the one it was
/// taken for.
pub proof fn law_corrected_port_told(a: u16, b: u16)
    ensures
        crate::connect::port_notice(a, b) == "Peer port corrected: "@ + crate::number::spec_decimal(
            a as nat,
        ) + " -> "@ + crate::number::spec_decimal(b as nat),
{
}

} // verus!
