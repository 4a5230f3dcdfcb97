//! What a relay logs.
use vstd::prelude::*;
use vstd::slice::slice_subrange;

use crate::logger::format_bold;
use crate::model::{DropReason, Stage};
use crate::number::{decimal, spec_decimal};
use crate::packet::{parse_msg, parse_packet, Message, MessageView, Packet, PacketView};
use crate::text::{quoted_text, from_utf8_lossy, join2, lossy_text, quoted};

verus! {

/// How much of a datagram of no known type is logged, in bytes.
pub const UNKNOWN_TYPE_MAX_LOG_LEN: usize = 40;

/// The room that a datagram names; nothing where it names none.
pub open spec fn room_named(data: Seq<u8>) -> Seq<u8> {
    match crate::packet::spec_parse_packet(data) {
        PacketView::InvalidRoom(room) => room,
        PacketView::Reg { room, cookie } => room,
        PacketView::Msg(payload) => match crate::packet::spec_parse_msg(payload) {
            MessageView::UnknownPhase { room, name } => room,
            MessageView::InvalidRoom { room } => room,
            MessageView::InvalidBody { room } => room,
            MessageView::Valid { room, phase, body } => room,
            MessageView::Malformed => Seq::empty(),
        },
        _ => Seq::empty(),
    }
}

/// What a datagram has that is not known: its type, or the phase of a message.
pub open spec fn unknown_named(data: Seq<u8>) -> Seq<u8> {
    match crate::packet::spec_parse_packet(data) {
        PacketView::Unknown(t) => if t.len() > UNKNOWN_TYPE_MAX_LOG_LEN {
            t.take(UNKNOWN_TYPE_MAX_LOG_LEN as int)
        } else {
            t
        },
        PacketView::Msg(payload) => match crate::packet::spec_parse_msg(payload) {
            MessageView::UnknownPhase { room, name } => name,
            _ => Seq::empty(),
        },
        _ => Seq::empty(),
    }
}

/// A note on the step at which a limit was met.
pub open spec fn stage_note(stage: Stage) -> Seq<char> {
    match stage {
        Stage::Request => ""@,
        Stage::Admission => " (cookie admission)"@,
        Stage::Completion => " (cookie completion)"@,
    }
}

/// What is logged of a datagram `data` from `src` that was dropped.
pub open spec fn spec_drop_text(
    reason: DropReason,
    data: Seq<u8>,
    src: Seq<char>,
    max_clients_hard: nat,
) -> Seq<char> {
    let room = lossy_text(room_named(data));
    let unknown = lossy_text(unknown_named(data));
    match reason {
        DropReason::Oversized => "Dropped oversized datagram ("@ + spec_decimal(data.len())
            + " bytes) from "@ + src,
        DropReason::EmptyRoom => "Dropped REG with empty room from "@ + src,
        DropReason::InvalidRoom => "Dropped REG with invalid room "@ + quoted_text(room) + " from "@
            + src,
        DropReason::UnknownType => "Dropped unknown packet type from "@ + src + ": "@ + quoted_text(
            unknown,
        ),
        DropReason::InvalidCookie => "Dropped REG with invalid cookie from "@ + src,
        DropReason::MismatchedCookieInStore => "Dropped REG with mismatched cookie from "@ + src
            + " in room "@ + room + " (pending store)"@,
        DropReason::MismatchedCookieInRoom => "Dropped REG with mismatched cookie from "@ + src
            + " in room "@ + room,
        DropReason::RateLimitedReg => "Rate-limited REG from "@ + src,
        DropReason::RoomLimitPerIp(stage) => "Room limit per IP reached for "@ + src + stage_note(
            stage,
        ),
        DropReason::PendingLimitPerIp => "Pending limit per IP reached for "@ + src,
        DropReason::PendingStoreFull => "Pending store full for "@ + src,
        DropReason::HardCap(stage) => "Room "@ + room + " at hard cap ("@ + spec_decimal(
            max_clients_hard,
        ) + "), rejecting "@ + src + stage_note(stage),
        DropReason::MaxRooms => "Room "@ + room
            + " rejected: max rooms reached (cookie completion)"@,
        DropReason::MalformedMsg => "Dropped malformed MSG from "@ + src,
        DropReason::MsgUnknownPhase => "Dropped MSG with unknown phase "@ + quoted_text(unknown)
            + " from "@ + src + " in room "@ + quoted_text(room),
        DropReason::MsgInvalidRoom => "Dropped MSG with invalid room "@ + quoted_text(room)
            + " from "@ + src,
        DropReason::MsgInvalidBody => "Dropped MSG with invalid body from "@ + src + " in room "@
            + quoted_text(room),
        DropReason::MsgUnknownRoom => "Dropped MSG for unknown room "@ + room + " from "@ + src,
        DropReason::MsgUnregistered => "Dropped message from unregistered client "@ + src
            + " in room "@ + room,
        DropReason::RateLimitedMsg => "Rate-limited MSG from "@ + src + " in room "@ + room,
    }
}

fn lossy(b: &[u8]) -> (s: String)
    ensures
        s@ == lossy_text(b@),
{
    from_utf8_lossy(b)
}

/// The room that a datagram names, as text.
fn room_text(data: &[u8]) -> (s: String)
    ensures
        s@ == lossy_text(room_named(data@)),
{
    match parse_packet(data) {
        Packet::InvalidRoom(room) => lossy(room),
        Packet::Reg { room, cookie: _ } => lossy(room),
        Packet::Msg(payload) => match parse_msg(payload) {
            Message::UnknownPhase { room, name: _ } => lossy(room),
            Message::InvalidRoom { room } => lossy(room),
            Message::InvalidBody { room } => lossy(room),
            Message::Valid { room, phase: _, body: _ } => lossy(room),
            Message::Malformed => lossy(slice_subrange(payload, 0, 0)),
        },
        _ => lossy(slice_subrange(data, 0, 0)),
    }
}

/// What a datagram has that is not known, as text.
fn unknown_text(data: &[u8]) -> (s: String)
    ensures
        s@ == lossy_text(unknown_named(data@)),
{
    match parse_packet(data) {
        Packet::Unknown(t) => if t.len() > UNKNOWN_TYPE_MAX_LOG_LEN {
            let head = slice_subrange(t, 0, UNKNOWN_TYPE_MAX_LOG_LEN);
            assert(head@ =~= t@.take(UNKNOWN_TYPE_MAX_LOG_LEN as int));
            lossy(head)
        } else {
            lossy(t)
        },
        Packet::Msg(payload) => match parse_msg(payload) {
            Message::UnknownPhase { room: _, name } => lossy(name),
            _ => lossy(slice_subrange(payload, 0, 0)),
        },
        _ => lossy(slice_subrange(data, 0, 0)),
    }
}

fn note(stage: Stage) -> (s: &'static str)
    ensures
        s@ == stage_note(stage),
{
    match stage {
        Stage::Request => "",
        Stage::Admission => " (cookie admission)",
        Stage::Completion => " (cookie completion)",
    }
}

fn join3(a: &str, b: &str, c: &str) -> (s: String)
    ensures
        s@ == a@ + b@ + c@,
{
    let mut s = join2(a, b);
    s.push_str(c);
    s
}

fn join4(a: &str, b: &str, c: &str, d: &str) -> (s: String)
    ensures
        s@ == a@ + b@ + c@ + d@,
{
    let mut s = join3(a, b, c);
    s.push_str(d);
    s
}

/// What is logged of a datagram `data` from `src` that was dropped.
pub fn drop_text(reason: DropReason, data: &[u8], src: &str, max_clients_hard: usize) -> (s: String)
    ensures
        s@ == spec_drop_text(reason, data@, src@, max_clients_hard as nat),
{
    let room_name = room_text(data);
    let room = room_name.as_str();
    match reason {
        DropReason::Oversized => join4(
            "Dropped oversized datagram (",
            decimal(data.len() as u64).as_str(),
            " bytes) from ",
            src,
        ),
        DropReason::EmptyRoom => join2("Dropped REG with empty room from ", src),
        DropReason::InvalidRoom => join4(
            "Dropped REG with invalid room ",
            quoted(room).as_str(),
            " from ",
            src,
        ),
        DropReason::UnknownType => join4(
            "Dropped unknown packet type from ",
            src,
            ": ",
            quoted(unknown_text(data).as_str()).as_str(),
        ),
        DropReason::InvalidCookie => join2("Dropped REG with invalid cookie from ", src),
        DropReason::MismatchedCookieInStore => {
            let mut s = join4("Dropped REG with mismatched cookie from ", src, " in room ", room);
            s.push_str(" (pending store)");
            s
        },
        DropReason::MismatchedCookieInRoom => join4(
            "Dropped REG with mismatched cookie from ",
            src,
            " in room ",
            room,
        ),
        DropReason::RateLimitedReg => join2("Rate-limited REG from ", src),
        DropReason::RoomLimitPerIp(stage) => join3(
            "Room limit per IP reached for ",
            src,
            note(stage),
        ),
        DropReason::PendingLimitPerIp => join2("Pending limit per IP reached for ", src),
        DropReason::PendingStoreFull => join2("Pending store full for ", src),
        DropReason::HardCap(stage) => {
            let mut s = join4(
                "Room ",
                room,
                " at hard cap (",
                decimal(max_clients_hard as u64).as_str(),
            );
            s.push_str("), rejecting ");
            s.push_str(src);
            s.push_str(note(stage));
            s
        },
        DropReason::MaxRooms => join3(
            "Room ",
            room,
            " rejected: max rooms reached (cookie completion)",
        ),
        DropReason::MalformedMsg => join2("Dropped malformed MSG from ", src),
        DropReason::MsgUnknownPhase => {
            let mut s = join4(
                "Dropped MSG with unknown phase ",
                quoted(unknown_text(data).as_str()).as_str(),
                " from ",
                src,
            );
            s.push_str(" in room ");
            s.push_str(quoted(room).as_str());
            s
        },
        DropReason::MsgInvalidRoom => join4(
            "Dropped MSG with invalid room ",
            quoted(room).as_str(),
            " from ",
            src,
        ),
        DropReason::MsgInvalidBody => join4(
            "Dropped MSG with invalid body from ",
            src,
            " in room ",
            quoted(room).as_str(),
        ),
        DropReason::MsgUnknownRoom => join4("Dropped MSG for unknown room ", room, " from ", src),
        DropReason::MsgUnregistered => join4(
            "Dropped message from unregistered client ",
            src,
            " in room ",
            room,
        ),
        DropReason::RateLimitedMsg => join4("Rate-limited MSG from ", src, " in room ", room),
    }
}

/// What is logged when rooms that nobody uses were evicted.
pub fn evicted_text(n: usize) -> (s: String)
    ensures
        s@ == "Evicted "@ + spec_decimal(n as nat) + " stale room(s)"@,
{
    join3("Evicted ", decimal(n as u64).as_str(), " stale room(s)")
}

/// What is logged when a relay starts.
pub fn listening_text(addr: &str, workers: usize, write_pool: usize, no_color: bool) -> (s: String)
    ensures
        s@ == "Listening on UDP "@ + crate::logger::spec_bold(addr@, no_color) + " ("@
            + spec_decimal(workers as nat) + " workers, "@ + spec_decimal(write_pool as nat)
            + " writePool)"@,
{
    let mut s = join4(
        "Listening on UDP ",
        format_bold(addr, no_color).as_str(),
        " (",
        decimal(workers as u64).as_str(),
    );
    s.push_str(" workers, ");
    s.push_str(decimal(write_pool as u64).as_str());
    s.push_str(" writePool)");
    s
}

} // verus!
