//! Peers and relays understand each other: what one writes, the other reads.
use vstd::prelude::*;

use crate::ascii::{lemma_ascii, lemma_bytes, lemma_concat_ascii, to_bytes};
use crate::model::{challenge_text, msgd_text, regd_text};
use crate::packet::{ascii_chars, spec_parse_msg, spec_parse_packet, MessageView, PacketView, Phase};
use crate::room::{is_ascii_space, is_hex_digit, is_room_byte, spec_trim};
use crate::seqs::{begins_with, lemma_first_index};
use crate::session::{msg_text, reg_text, ReceivedView, SessionView};

verus! {

/// A text without white space at its ends is what is left of its line.
proof fn lemma_trim_line(s: Seq<u8>)
    requires
        s.len() > 0,
        !is_ascii_space(s[0]),
        !is_ascii_space(s.last()),
    ensures
        spec_trim(s.push(10)) == s,
        spec_trim(s) == s,
{
    let t = s.push(10);
    assert(t[0] == s[0]);
    assert(t.last() == 10);
    assert(t.drop_last() =~= s);
    assert(spec_trim(s) == s);
    assert(spec_trim(t) == spec_trim(s));
}

proof fn lemma_prefix(p: Seq<u8>, rest: Seq<u8>)
    ensures
        begins_with(p + rest, p),
        (p + rest).skip(p.len() as int) == rest,
{
    assert((p + rest).take(p.len() as int) =~= p);
    assert((p + rest).skip(p.len() as int) =~= rest);
}

/// A word, a space, and more: the first space is the one after the word.
proof fn lemma_split(word: Seq<u8>, rest: Seq<u8>)
    requires
        forall|i: int| 0 <= i < word.len() ==> #[trigger] word[i] != 32,
    ensures
        crate::packet::split_space(word + seq![32u8] + rest) == (word, Some(rest)),
{
    let s = word + seq![32u8] + rest;
    assert forall|j: int| 0 <= j < word.len() implies s[j] != 32 by {
        assert(word[j] != 32);
    }
    lemma_first_index(s, 32u8, word.len() as int);
    assert(s.take(word.len() as int) =~= word);
    assert(s.skip(word.len() as int + 1) =~= rest);
}

/// Hex text: lower-case digits, as bytes.
proof fn lemma_hex_bytes(b: Seq<u8>)
    ensures
        ({
            let h = to_bytes(crate::hex::spec_to_hex(b));
            &&& h.len() == 2 * b.len()
            &&& forall|i: int|
                0 <= i < h.len() ==> (48 <= #[trigger] h[i] <= 57 || 97 <= h[i] <= 102)
            &&& vstd::utf8::encode_utf8(crate::hex::spec_to_hex(b)) == h
            &&& ascii_chars(h) == crate::hex::spec_to_hex(b)
            &&& vstd::utf8::is_ascii_chars(crate::hex::spec_to_hex(b))
            &&& crate::hex::spec_hex_decode(h) == Some(b)
        }),
{
    let s = crate::hex::spec_to_hex(b);
    let h = to_bytes(s);
    assert forall|i: int| 0 <= i < s.len() implies '\0' <= #[trigger] s[i] <= '\u{7f}' by {
        assert(s[i] == crate::hex::hex_digit(
            if i % 2 == 0 {
                b[i / 2] as int / 16
            } else {
                b[i / 2] as int % 16
            },
        ));
    }
    assert forall|i: int| 0 <= i < h.len() implies (48 <= #[trigger] h[i] <= 57 || 97 <= h[i]
        <= 102) by {
        assert(s[i] == crate::hex::hex_digit(
            if i % 2 == 0 {
                b[i / 2] as int / 16
            } else {
                b[i / 2] as int % 16
            },
        ));
    }
    lemma_ascii(s);
    crate::hex::law_hex_round_trip(b);
}

/// `room` as it stands on the wire.
proof fn lemma_room(room: Seq<u8>)
    requires
        crate::room::spec_valid_room_name(room),
    ensures
        vstd::utf8::is_ascii_chars(ascii_chars(room)),
        vstd::utf8::encode_utf8(ascii_chars(room)) == room,
        forall|i: int| 0 <= i < room.len() ==> #[trigger] room[i] != 32 && !is_ascii_space(room[i]),
{
    assert forall|i: int| 0 <= i < room.len() implies #[trigger] room[i] < 128 && room[i] != 32
        && !is_ascii_space(room[i]) by {
        assert(is_room_byte(room[i]));
    }
    lemma_bytes(room);
}

/// The bytes of the fixed parts.
proof fn lemma_literals()
    ensures
        vstd::utf8::is_ascii_chars("REGD "@),
        to_bytes("REGD "@) == seq![82u8, 69u8, 71u8, 68u8, 32u8],
        vstd::utf8::is_ascii_chars("REG "@),
        to_bytes("REG "@) == crate::packet::reg_prefix(),
        vstd::utf8::is_ascii_chars("MSG "@),
        to_bytes("MSG "@) == crate::packet::msg_prefix(),
        vstd::utf8::is_ascii_chars("MSGD "@),
        to_bytes("MSGD "@) == seq![77u8, 83u8, 71u8, 68u8, 32u8],
        vstd::utf8::is_ascii_chars(" "@),
        to_bytes(" "@) == seq![32u8],
        vstd::utf8::is_ascii_chars("\n"@),
        to_bytes("\n"@) == seq![10u8],
        vstd::utf8::is_ascii_chars(" OK "@),
        to_bytes(" OK "@) == seq![32u8, 79u8, 75u8, 32u8],
        vstd::utf8::is_ascii_chars("OK "@),
        to_bytes("OK "@) == seq![79u8, 75u8, 32u8],
        vstd::utf8::is_ascii_chars("spake2"@),
        to_bytes("spake2"@) == seq![115u8, 112u8, 97u8, 107u8, 101u8, 50u8],
        vstd::utf8::is_ascii_chars("confirm"@),
        to_bytes("confirm"@) == seq![99u8, 111u8, 110u8, 102u8, 105u8, 114u8, 109u8],
        vstd::utf8::is_ascii_chars("MSGD spake2 "@),
        to_bytes("MSGD spake2 "@) == to_bytes("MSGD "@) + to_bytes("spake2"@) + seq![32u8],
        vstd::utf8::is_ascii_chars("MSGD confirm "@),
        to_bytes("MSGD confirm "@) == to_bytes("MSGD "@) + to_bytes("confirm"@) + seq![32u8],
{
    reveal_strlit("REGD ");
    reveal_strlit("REG ");
    reveal_strlit("MSG ");
    reveal_strlit("MSGD ");
    reveal_strlit(" ");
    reveal_strlit("\n");
    reveal_strlit(" OK ");
    reveal_strlit("OK ");
    reveal_strlit("spake2");
    reveal_strlit("confirm");
    reveal_strlit("MSGD spake2 ");
    reveal_strlit("MSGD confirm ");
    assert(to_bytes("REGD "@) =~= seq![82u8, 69u8, 71u8, 68u8, 32u8]);
    assert(to_bytes("REG "@) =~= crate::packet::reg_prefix());
    assert(to_bytes("MSG "@) =~= crate::packet::msg_prefix());
    assert(to_bytes("MSGD "@) =~= seq![77u8, 83u8, 71u8, 68u8, 32u8]);
    assert(to_bytes(" "@) =~= seq![32u8]);
    assert(to_bytes("\n"@) =~= seq![10u8]);
    assert(to_bytes(" OK "@) =~= seq![32u8, 79u8, 75u8, 32u8]);
    assert(to_bytes("OK "@) =~= seq![79u8, 75u8, 32u8]);
    assert(to_bytes("spake2"@) =~= seq![115u8, 112u8, 97u8, 107u8, 101u8, 50u8]);
    assert(to_bytes("confirm"@) =~= seq![99u8, 111u8, 110u8, 102u8, 105u8, 114u8, 109u8]);
    assert(to_bytes("MSGD spake2 "@) =~= to_bytes("MSGD "@) + to_bytes("spake2"@) + seq![32u8]);
    assert(to_bytes("MSGD confirm "@) =~= to_bytes("MSGD "@) + to_bytes("confirm"@) + seq![32u8]);
}

/// A peer that is challenged answers at once, with the cookie it was sent.
pub proof fn law_peer_answers_challenge(
    s: SessionView,
    room: Seq<u8>,
    cookie: Seq<u8>,
    now: crate::clock::Instant,
)
    requires
        crate::room::spec_valid_room_name(room),
        s.room == ascii_chars(room),
        cookie.len() == crate::room::PENDING_COOKIE_BYTES,
    ensures
        ({
            let (s2, r) = s.receive(vstd::utf8::encode_utf8(challenge_text(s.room, cookie)));
            &&& r == ReceivedView::Challenged
            &&& s2.pending_cookie == crate::hex::spec_to_hex(cookie)
            &&& s2.due_reg(now) == seq![reg_text(s.room, crate::hex::spec_to_hex(cookie))]
        }),
{
    lemma_literals();
    lemma_room(room);
    lemma_hex_bytes(cookie);
    let h = to_bytes(crate::hex::spec_to_hex(cookie));
    let a1 = "REGD "@ + s.room;
    let a2 = a1 + " "@;
    let a3 = a2 + crate::hex::spec_to_hex(cookie);
    lemma_concat_ascii("REGD "@, s.room);
    lemma_concat_ascii(a1, " "@);
    lemma_concat_ascii(a2, crate::hex::spec_to_hex(cookie));
    lemma_concat_ascii(a3, "\n"@);
    lemma_ascii(s.room);
    lemma_ascii(a3 + "\n"@);
    lemma_ascii("REGD "@);
    lemma_ascii("OK "@);
    let line = to_bytes("REGD "@) + (room + seq![32u8] + h);
    assert(to_bytes(a3) =~= line);
    assert(to_bytes(a3 + "\n"@) =~= line.push(10));
    assert(line[0] == 82);
    assert(line.last() == h.last());
    lemma_trim_line(line);
    lemma_prefix(to_bytes("REGD "@), room + seq![32u8] + h);
    lemma_split(room, h);
    lemma_trim_line(h);
    assert(!begins_with(h, to_bytes("OK "@))) by {
        if begins_with(h, to_bytes("OK "@)) {
            assert(h.take(3)[0] == 79);
            assert(h[0] == 79);
        }
    }
    let (s2, r) = s.receive(vstd::utf8::encode_utf8(challenge_text(s.room, cookie)));
    assert(s2.due_reg(now) =~= seq![reg_text(s.room, crate::hex::spec_to_hex(cookie))]);
}

/// A registration on the wire.
proof fn lemma_reg_wire(room: Seq<u8>, cookie: Seq<u8>)
    requires
        crate::room::spec_valid_room_name(room),
        cookie.len() == crate::room::PENDING_COOKIE_BYTES,
    ensures
        vstd::utf8::encode_utf8(reg_text(ascii_chars(room), crate::hex::spec_to_hex(cookie))) == (
        crate::packet::reg_prefix() + (room + seq![32u8] + to_bytes(
            crate::hex::spec_to_hex(cookie),
        ))).push(10),
        vstd::utf8::encode_utf8(reg_text(ascii_chars(room), Seq::empty())) == (
        crate::packet::reg_prefix() + room).push(10),
{
    lemma_literals();
    lemma_room(room);
    lemma_hex_bytes(cookie);
    let name = ascii_chars(room);
    let h = to_bytes(crate::hex::spec_to_hex(cookie));
    let a1 = "REG "@ + name;
    let a2 = a1 + " "@;
    let a3 = a2 + crate::hex::spec_to_hex(cookie);
    lemma_concat_ascii("REG "@, name);
    lemma_concat_ascii(a1, " "@);
    lemma_concat_ascii(a2, crate::hex::spec_to_hex(cookie));
    lemma_concat_ascii(a3, "\n"@);
    lemma_concat_ascii(a1, "\n"@);
    lemma_ascii(name);
    lemma_ascii(a3 + "\n"@);
    lemma_ascii(a1 + "\n"@);
    let pre = crate::packet::reg_prefix();
    assert(to_bytes(a3 + "\n"@) =~= (pre + (room + seq![32u8] + h)).push(10));
    assert(to_bytes(a1 + "\n"@) =~= (pre + room).push(10));
}

/// A registration with a cookie, read from its bytes.
proof fn lemma_reg_read(room: Seq<u8>, h: Seq<u8>)
    requires
        crate::room::spec_valid_room_name(room),
        h.len() == 32,
        forall|i: int| 0 <= i < h.len() ==> is_hex_digit(#[trigger] h[i]),
    ensures
        spec_parse_packet((crate::packet::reg_prefix() + (room + seq![32u8] + h)).push(10)) == (
        PacketView::Reg { room, cookie: h }),
{
    lemma_room(room);
    let pre = crate::packet::reg_prefix();
    let rest = room + seq![32u8] + h;
    let line = pre + rest;
    assert(is_hex_digit(h[31]));
    assert(is_hex_digit(h[0]));
    assert(line[0] == 82);
    assert(line.last() == h[31]);
    lemma_trim_line(line);
    lemma_prefix(pre, rest);
    assert(rest[0] == room[0]);
    assert(rest.last() == h[31]);
    lemma_trim_line(rest);
    lemma_split(room, h);
    lemma_trim_line(h);
}

/// A registration without a cookie, read from its bytes.
proof fn lemma_bare_reg_read(room: Seq<u8>)
    requires
        crate::room::spec_valid_room_name(room),
    ensures
        spec_parse_packet((crate::packet::reg_prefix() + room).push(10)) == (PacketView::Reg {
            room,
            cookie: Seq::empty(),
        }),
{
    lemma_room(room);
    let pre = crate::packet::reg_prefix();
    let line = pre + room;
    assert(line[0] == 82);
    assert(line.last() == room[room.len() - 1]);
    lemma_trim_line(line);
    lemma_prefix(pre, room);
    lemma_trim_line(room);
    lemma_first_index(room, 32u8, room.len() as int);
}

/// What a peer writes to register, a relay reads: the room, and the cookie if
/// there is one.
pub proof fn law_registration_is_read(room: Seq<u8>, cookie: Seq<u8>)
    requires
        crate::room::spec_valid_room_name(room),
        cookie.len() == crate::room::PENDING_COOKIE_BYTES,
    ensures
        spec_parse_packet(
            vstd::utf8::encode_utf8(
                reg_text(ascii_chars(room), crate::hex::spec_to_hex(cookie)),
            ),
        ) == (PacketView::Reg {
            room,
            cookie: vstd::utf8::encode_utf8(crate::hex::spec_to_hex(cookie)),
        }),
        spec_parse_packet(vstd::utf8::encode_utf8(reg_text(ascii_chars(room), Seq::empty()))) == (
        PacketView::Reg { room, cookie: Seq::empty() }),
{
    lemma_reg_wire(room, cookie);
    lemma_hex_bytes(cookie);
    let h = to_bytes(crate::hex::spec_to_hex(cookie));
    assert forall|i: int| 0 <= i < h.len() implies is_hex_digit(#[trigger] h[i]) by {}
    lemma_reg_read(room, h);
    lemma_bare_reg_read(room);
}

/// A peer that is told that it is registered takes note of it, and of the
/// address under which the relay sees it.
pub proof fn law_peer_notes_registration(s: SessionView, room: Seq<u8>, src: Seq<u8>)
    requires
        crate::room::spec_valid_room_name(room),
        s.room == ascii_chars(room),
        src.len() > 0,
        forall|i: int| 0 <= i < src.len() ==> 32 < #[trigger] src[i] < 128,
    ensures
        ({
            let (s2, r) = s.receive(
                vstd::utf8::encode_utf8(regd_text(s.room, ascii_chars(src))),
            );
            &&& r == ReceivedView::Registered
            &&& s2.registered
            &&& s2.my_addr == ascii_chars(src)
        }),
{
    lemma_literals();
    lemma_room(room);
    lemma_bytes(src);
    let a1 = "REGD "@ + s.room;
    let a2 = a1 + " OK "@;
    let a3 = a2 + ascii_chars(src);
    lemma_concat_ascii("REGD "@, s.room);
    lemma_concat_ascii(a1, " OK "@);
    lemma_concat_ascii(a2, ascii_chars(src));
    lemma_concat_ascii(a3, "\n"@);
    lemma_ascii(s.room);
    lemma_ascii(a3 + "\n"@);
    lemma_ascii("REGD "@);
    lemma_ascii("OK "@);
    let tail = to_bytes("OK "@) + src;
    let rest = room + seq![32u8] + tail;
    let line = to_bytes("REGD "@) + rest;
    assert(to_bytes(a3) =~= line);
    assert(to_bytes(a3 + "\n"@) =~= line.push(10));
    assert(line[0] == 82);
    assert(line.last() == src.last());
    assert(32 < src[src.len() - 1] < 128);
    assert(32 < src[0] < 128);
    lemma_trim_line(line);
    lemma_prefix(to_bytes("REGD "@), rest);
    lemma_split(room, tail);
    assert(tail[0] == 79);
    assert(tail.last() == src.last());
    lemma_trim_line(tail);
    lemma_prefix(to_bytes("OK "@), src);
    lemma_trim_line(src);
}

/// The parts of a message, grouped as they are read.
proof fn lemma_regroup(pre: Seq<u8>, room: Seq<u8>, p: Seq<u8>, h: Seq<u8>)
    ensures
        pre + room + seq![32u8] + p + seq![32u8] + h + seq![10u8] == (pre + (room + seq![32u8] + (p
            + seq![32u8] + h))).push(10),
{
    assert(pre + room + seq![32u8] + p + seq![32u8] + h + seq![10u8] =~= (pre + (room
        + seq![32u8] + (p + seq![32u8] + h))).push(10));
}

/// A message on the wire.
proof fn lemma_msg_wire(room: Seq<u8>, phase: Phase, body: Seq<u8>)
    requires
        crate::room::spec_valid_room_name(room),
    ensures
        vstd::utf8::encode_utf8(msg_text(ascii_chars(room), phase, body)) == (
        crate::packet::msg_prefix() + (room + seq![32u8] + (to_bytes(phase.spec_name()) + seq![32u8]
            + to_bytes(crate::hex::spec_to_hex(body))))).push(10),
{
    lemma_literals();
    lemma_room(room);
    lemma_hex_bytes(body);
    let name = ascii_chars(room);
    let ph = phase.spec_name();
    let a1 = "MSG "@ + name;
    let a2 = a1 + " "@;
    let a3 = a2 + ph;
    let a4 = a3 + " "@;
    let a5 = a4 + crate::hex::spec_to_hex(body);
    lemma_concat_ascii("MSG "@, name);
    lemma_concat_ascii(a1, " "@);
    lemma_concat_ascii(a2, ph);
    lemma_concat_ascii(a3, " "@);
    lemma_concat_ascii(a4, crate::hex::spec_to_hex(body));
    lemma_concat_ascii(a5, "\n"@);
    lemma_ascii(name);
    lemma_ascii(a5 + "\n"@);
    lemma_regroup(
        crate::packet::msg_prefix(),
        room,
        to_bytes(ph),
        to_bytes(crate::hex::spec_to_hex(body)),
    );
}

/// The name of a phase, read.
proof fn lemma_phase_read(phase: Phase)
    ensures
        crate::packet::spec_parse_phase(to_bytes(phase.spec_name())) == Some(phase),
        6 <= to_bytes(phase.spec_name()).len() <= 7,
        forall|i: int|
            0 <= i < to_bytes(phase.spec_name()).len() ==> #[trigger] to_bytes(
                phase.spec_name(),
            )[i] != 32,
{
    lemma_literals();
    assert(seq![115u8, 112u8, 97u8, 107u8, 101u8, 50u8].len() == 6);
    assert(seq![99u8, 111u8, 110u8, 102u8, 105u8, 114u8, 109u8].len() == 7);
}

/// A message, read from its bytes.
proof fn lemma_msg_read(room: Seq<u8>, p: Seq<u8>, h: Seq<u8>)
    requires
        crate::room::spec_valid_room_name(room),
        p.len() <= 7,
        0 < h.len() <= 1024,
        is_hex_digit(h.last()),
    ensures
        spec_parse_packet(
            (crate::packet::msg_prefix() + (room + seq![32u8] + (p + seq![32u8] + h))).push(10),
        ) == PacketView::Msg(room + seq![32u8] + (p + seq![32u8] + h)),
{
    let pre = crate::packet::msg_prefix();
    let rest = room + seq![32u8] + (p + seq![32u8] + h);
    let line = pre + rest;
    assert(line[0] == 77);
    assert(line.last() == h.last());
    lemma_trim_line(line);
    lemma_prefix(pre, rest);
    assert(!begins_with(line, crate::packet::reg_prefix())) by {
        if begins_with(line, crate::packet::reg_prefix()) {
            assert(line.take(4)[0] == 82);
        }
    }
}

/// A message that a peer sends is read by the relay as that message.
pub proof fn law_message_is_read(room: Seq<u8>, phase: Phase, body: Seq<u8>)
    requires
        crate::room::spec_valid_room_name(room),
        0 < body.len() <= 512,
    ensures
        ({
            let wire = vstd::utf8::encode_utf8(msg_text(ascii_chars(room), phase, body));
            let h = vstd::utf8::encode_utf8(crate::hex::spec_to_hex(body));
            &&& spec_parse_packet(wire) is Msg
            &&& spec_parse_msg(spec_parse_packet(wire)->Msg_0) == (MessageView::Valid {
                room,
                phase,
                body: h,
            })
        }),
{
    lemma_msg_wire(room, phase, body);
    lemma_hex_bytes(body);
    lemma_phase_read(phase);
    lemma_room(room);
    let p = to_bytes(phase.spec_name());
    let h = to_bytes(crate::hex::spec_to_hex(body));
    assert forall|i: int| 0 <= i < h.len() implies is_hex_digit(#[trigger] h[i]) by {}
    lemma_msg_read(room, p, h);
    lemma_split(room, p + seq![32u8] + h);
    lemma_split(p, h);
    assert(crate::room::spec_is_valid_hex(h));
}

/// A relayed message on the wire.
proof fn lemma_msgd_wire(phase: Phase, body: Seq<u8>)
    ensures
        ({
            let hex = crate::hex::spec_to_hex(body);
            vstd::utf8::encode_utf8(msgd_text(phase, vstd::utf8::encode_utf8(hex))) == (to_bytes(
                "MSGD "@,
            ) + to_bytes(phase.spec_name()) + seq![32u8] + to_bytes(hex)).push(10)
        }),
{
    lemma_literals();
    lemma_hex_bytes(body);
    let hex = crate::hex::spec_to_hex(body);
    let ph = phase.spec_name();
    let a1 = "MSGD "@ + ph;
    let a2 = a1 + " "@;
    let a3 = a2 + hex;
    lemma_concat_ascii("MSGD "@, ph);
    lemma_concat_ascii(a1, " "@);
    lemma_concat_ascii(a2, hex);
    lemma_concat_ascii(a3, "\n"@);
    lemma_ascii(a3 + "\n"@);
    assert(to_bytes(a3 + "\n"@) =~= (to_bytes("MSGD "@) + to_bytes(ph) + seq![32u8] + to_bytes(
        hex,
    )).push(10));
}

/// The prefixes that a relayed message has and has not.
proof fn lemma_msgd_prefix(phase: Phase, h: Seq<u8>)
    ensures
        ({
            let line = to_bytes("MSGD "@) + to_bytes(phase.spec_name()) + seq![32u8] + h;
            &&& line.len() > 0
            &&& line[0] == 77
            &&& h.len() > 0 ==> line.last() == h.last()
            &&& crate::session::spec_strip_prefix(line, "REGD "@) is None
            &&& match phase {
                Phase::Spake2 => crate::session::spec_strip_prefix(line, "MSGD spake2 "@) == Some(
                    h,
                ),
                Phase::Confirm => crate::session::spec_strip_prefix(line, "MSGD spake2 "@) is None
                    && crate::session::spec_strip_prefix(line, "MSGD confirm "@) == Some(h),
            }
        }),
{
    lemma_literals();
    lemma_ascii("REGD "@);
    lemma_ascii("MSGD spake2 "@);
    lemma_ascii("MSGD confirm "@);
    let pre = to_bytes("MSGD "@) + to_bytes(phase.spec_name()) + seq![32u8];
    let line = pre + h;
    lemma_prefix(pre, h);
    assert(line[0] == 77);
    if begins_with(line, to_bytes("REGD "@)) {
        assert(line.take(5)[0] == 82);
    }
    if phase == Phase::Confirm {
        if begins_with(line, to_bytes("MSGD spake2 "@)) {
            let q = to_bytes("MSGD spake2 "@);
            assert(q.len() == 12);
            assert(q[5] == 115);
            assert(line.take(12)[5] == 115);
            assert(line[5] == 99);
        }
    }
}

/// A confirmation that a relay passes on reaches the peer as it was sent; an
/// announcement is taken for one, and judged by what it holds.
pub proof fn law_relayed_message_is_read(s: SessionView, phase: Phase, body: Seq<u8>)
    requires
        body.len() > 0,
    ensures
        ({
            let hex = crate::hex::spec_to_hex(body);
            let wire = vstd::utf8::encode_utf8(msgd_text(phase, vstd::utf8::encode_utf8(hex)));
            let r = match phase {
                Phase::Spake2 => s.on_spake(hex),
                Phase::Confirm => ReceivedView::Confirm { body: hex },
            };
            s.receive(wire) == (s.noting(r), r)
        }),
{
    lemma_msgd_wire(phase, body);
    lemma_hex_bytes(body);
    let h = to_bytes(crate::hex::spec_to_hex(body));
    lemma_msgd_prefix(phase, h);
    let line = to_bytes("MSGD "@) + to_bytes(phase.spec_name()) + seq![32u8] + h;
    assert(!is_ascii_space(h.last()));
    lemma_trim_line(line);
    lemma_bytes(h);
}

} // verus!
