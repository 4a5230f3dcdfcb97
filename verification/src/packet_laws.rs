//! What a relay makes of the bytes that it is sent.
use vstd::prelude::*;

use crate::packet::{
    spec_parse_msg, spec_parse_packet, split_space, MessageView, PacketView, Phase,
};
use crate::room::spec_trim;

verus! {

/// A tab, a line feed, a vertical tab, a form feed, a carriage return or a
/// space.
pub open spec fn is_blank(b: u8) -> bool {
    b == 9 || b == 10 || b == 11 || b == 12 || b == 13 || b == 32
}

/// `t` is `s` from `i` to `j`, where all outside of it are blanks and it neither
/// begins nor ends with one.
pub open spec fn is_trimmed(s: Seq<u8>, t: Seq<u8>, i: int, j: int) -> bool {
    &&& 0 <= i <= j <= s.len()
    &&& t == s.subrange(i, j)
    &&& forall|k: int| 0 <= k < i || j <= k < s.len() ==> is_blank(#[trigger] s[k])
    &&& t.len() > 0 ==> !is_blank(t[0]) && !is_blank(t.last())
}

proof fn lemma_trim_first(s: Seq<u8>, t: Seq<u8>, i: int, j: int)
    requires
        s.len() > 0,
        is_blank(s[0]),
        is_trimmed(s.drop_first(), t, i, j),
    ensures
        is_trimmed(s, t, i + 1, j + 1),
{
    let u = s.drop_first();
    assert(s.subrange(i + 1, j + 1) =~= u.subrange(i, j));
    assert forall|k: int| 0 <= k < i + 1 || j + 1 <= k < s.len() implies is_blank(
        #[trigger] s[k],
    ) by {
        if k > 0 {
            assert(is_blank(u[k - 1]));
        }
    }
}

proof fn lemma_trim_last(s: Seq<u8>, t: Seq<u8>, i: int, j: int)
    requires
        s.len() > 0,
        is_blank(s.last()),
        is_trimmed(s.drop_last(), t, i, j),
    ensures
        is_trimmed(s, t, i, j),
{
    let u = s.drop_last();
    assert(s.subrange(i, j) =~= u.subrange(i, j));
    assert forall|k: int| 0 <= k < i || j <= k < s.len() implies is_blank(#[trigger] s[k]) by {
        if k < s.len() - 1 {
            assert(is_blank(u[k]));
        }
    }
}

/// Trimming takes off the blanks at both ends, and nothing else.
pub proof fn law_trim(s: Seq<u8>) -> (r: (int, int))
    ensures
        is_trimmed(s, spec_trim(s), r.0, r.1),
    decreases s.len(),
{
    if s.len() == 0 {
        assert(s.subrange(0, 0) =~= s);
        (0, 0)
    } else if crate::room::is_ascii_space(s[0]) {
        let (i, j) = law_trim(s.drop_first());
        lemma_trim_first(s, spec_trim(s), i, j);
        (i + 1, j + 1)
    } else if crate::room::is_ascii_space(s.last()) {
        let (i, j) = law_trim(s.drop_last());
        lemma_trim_last(s, spec_trim(s), i, j);
        (i, j)
    } else {
        assert(s.subrange(0, s.len() as int) =~= s);
        (0, s.len() as int)
    }
}

/// `REG ` or `MSG `, by its first letter.
pub open spec fn keyword(first: u8) -> Seq<u8> {
    if first == 82 {
        seq![82u8, 69u8, 71u8, 32u8]
    } else {
        seq![77u8, 83u8, 71u8, 32u8]
    }
}

/// A datagram is too large above 1400 bytes, or empty; one that begins with
/// `MSG ` is a message, whatever it is made of; one that begins with neither
/// keyword is unknown.
pub proof fn law_kinds_of_packets(data: Seq<u8>, rest: Seq<u8>)
    ensures
        spec_parse_packet(data) is Oversized <==> data.len() == 0 || data.len() > 1400,
        0 < data.len() <= 1400 && spec_trim(data) == keyword(77) + rest ==> spec_parse_packet(data)
            == PacketView::Msg(rest),
        0 < data.len() <= 1400 && spec_trim(data) == keyword(82) + rest ==> !(spec_parse_packet(
            data,
        ) is Msg) && !(spec_parse_packet(data) is Unknown),
        spec_parse_packet(data) is Unknown ==> spec_parse_packet(data)->Unknown_0 == spec_trim(data),
        spec_parse_packet(data) is Unknown && spec_trim(data).len() >= 4 ==> spec_trim(data).take(4)
            != keyword(82) && spec_trim(data).take(4) != keyword(77),
{
    let t = spec_trim(data);
    assert((keyword(77) + rest).take(4) =~= keyword(77));
    assert((keyword(82) + rest).take(4) =~= keyword(82));
    assert((keyword(77) + rest).skip(4) =~= rest);
    assert(keyword(77)[0] != keyword(82)[0]);
}

/// A word: no space in it.
pub open spec fn is_word(s: Seq<u8>) -> bool {
    forall|i: int| 0 <= i < s.len() ==> #[trigger] s[i] != 32
}

/// The name of a room: 1 to 64 printable ASCII characters other than the space.
pub open spec fn is_room_name(s: Seq<u8>) -> bool {
    1 <= s.len() <= 64 && forall|i: int| 0 <= i < s.len() ==> 32 < #[trigger] s[i] < 127
}

/// A body: pairs of hex digits, at least one and at most 512.
pub open spec fn is_body(s: Seq<u8>) -> bool {
    &&& 0 < s.len() <= 1024
    &&& s.len() % 2 == 0
    &&& forall|i: int|
        0 <= i < s.len() ==> 48 <= #[trigger] s[i] <= 57 || 65 <= s[i] <= 70 || 97 <= s[i] <= 102
}

proof fn lemma_split(a: Seq<u8>, b: Seq<u8>)
    requires
        is_word(a),
    ensures
        split_space(a + seq![32u8] + b) == (a, Some(b)),
        split_space(a) == (a, None::<Seq<u8>>),
{
    let s = a + seq![32u8] + b;
    assert forall|j: int| 0 <= j < a.len() implies s[j] != 32 by {
        assert(s[j] == a[j]);
    }
    crate::seqs::lemma_first_index(s, 32u8, a.len() as int);
    crate::seqs::lemma_first_index(a, 32u8, a.len() as int);
    assert(s.take(a.len() as int) =~= a);
    assert(s.skip(a.len() as int + 1) =~= b);
}

/// A registration is a room name, and a cookie if something follows the name;
/// a name that is none is refused.
pub proof fn law_parts_of_a_registration(data: Seq<u8>, room: Seq<u8>, tail: Seq<u8>)
    requires
        0 < data.len() <= 1400,
        is_word(room),
    ensures
        ({
            let p = spec_parse_packet(data);
            let t = spec_trim(data);
            let rest = spec_trim(t.skip(4));
            crate::seqs::begins_with(t, keyword(82)) ==> {
                &&& rest == room + seq![32u8] + tail && is_room_name(room) ==> p
                    == (PacketView::Reg { room, cookie: spec_trim(tail) })
                &&& rest == room && is_room_name(room) ==> p == (PacketView::Reg {
                    room,
                    cookie: Seq::empty(),
                })
                &&& (rest == room || rest == room + seq![32u8] + tail) && room.len() > 0
                    && !is_room_name(room) ==> p == PacketView::InvalidRoom(room)
                &&& rest.len() == 0 ==> p is EmptyRoom
            }
        }),
{
    lemma_split(room, tail);
    lemma_split(Seq::empty(), tail);
    assert(crate::room::spec_valid_room_name(room) == is_room_name(room)) by {
        assert forall|i: int| 0 <= i < room.len() implies crate::room::is_room_byte(
            #[trigger] room[i],
        ) == (32 < room[i] < 127) by {}
        if crate::room::spec_valid_room_name(room) {
            assert forall|i: int| 0 <= i < room.len() implies 32 < #[trigger] room[i] < 127 by {
                assert(crate::room::is_room_byte(room[i]));
            }
        }
    }
    let rest = spec_trim(spec_trim(data).skip(4));
    if rest.len() == 0 {
        assert(rest =~= Seq::empty());
    }
}

/// The bytes of the name of a phase.
pub open spec fn phase_bytes(p: Phase) -> Seq<u8> {
    match p {
        Phase::Spake2 => seq![115u8, 112u8, 97u8, 107u8, 101u8, 50u8],
        Phase::Confirm => seq![99u8, 111u8, 110u8, 102u8, 105u8, 114u8, 109u8],
    }
}

/// A message is a room, a phase and a body with a space between them. It is
/// taken just when the phase is one of the two, the room has a name and the
/// body is hex and not too long; else it is refused for the first of these that
/// does not hold.
pub proof fn law_parts_of_a_message(room: Seq<u8>, name: Seq<u8>, body: Seq<u8>)
    requires
        is_word(room),
        is_word(name),
    ensures
        ({
            let m = spec_parse_msg(room + seq![32u8] + name + seq![32u8] + body);
            if name != phase_bytes(Phase::Spake2) && name != phase_bytes(Phase::Confirm) {
                m == (MessageView::UnknownPhase { room, name })
            } else if !is_room_name(room) {
                m == (MessageView::InvalidRoom { room })
            } else if !is_body(body) {
                m == (MessageView::InvalidBody { room })
            } else {
                m == (MessageView::Valid {
                    room,
                    phase: if name == phase_bytes(Phase::Spake2) {
                        Phase::Spake2
                    } else {
                        Phase::Confirm
                    },
                    body,
                })
            }
        }),
        spec_parse_msg(room) is Malformed,
        spec_parse_msg(room + seq![32u8] + name) is Malformed,
{
    let rest = name + seq![32u8] + body;
    assert(room + seq![32u8] + name + seq![32u8] + body =~= room + seq![32u8] + rest);
    lemma_split(room, rest);
    lemma_split(name, body);
    lemma_split(room, name);
    if crate::room::spec_valid_room_name(room) {
        assert forall|i: int| 0 <= i < room.len() implies 32 < #[trigger] room[i] < 127 by {
            assert(crate::room::is_room_byte(room[i]));
        }
    }
    if crate::room::spec_is_valid_hex(body) {
        assert forall|i: int| 0 <= i < body.len() implies 48 <= #[trigger] body[i] <= 57 || 65
            <= body[i] <= 70 || 97 <= body[i] <= 102 by {
            assert(crate::room::is_hex_digit(body[i]));
        }
    }
}

} // verus!
