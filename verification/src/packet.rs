//! The datagrams that a relay understands.
//!
//! `REG <room> [<cookie>]` registers the sender for a room, and
//! `MSG <room> <phase> <body>` passes a message on to the others in it.
use vstd::prelude::*;
use vstd::slice::slice_subrange;

use crate::room::{
    is_valid_hex, trim_ascii_space, valid_room_name, MAX_DATAGRAM_LEN,
};
use crate::seqs::find_byte;

verus! {

/// Longest message body, in hex digits.
pub const MAX_MSG_BODY_LEN: usize = 1024;

/// A space.
pub const SPACE: u8 = 32;

/// A datagram, taken apart.
pub enum Packet<'a> {
    /// Empty or longer than is looked at.
    Oversized,
    /// A REG without a room name.
    EmptyRoom,
    /// A REG whose room name is not valid.
    InvalidRoom(&'a [u8]),
    /// A REG; the cookie is empty when there is none.
    Reg { room: &'a [u8], cookie: &'a [u8] },
    /// What follows `MSG `.
    Msg(&'a [u8]),
    /// Anything else.
    Unknown(&'a [u8]),
}

/// A [`Packet`] by its contents.
pub enum PacketView {
    Oversized,
    EmptyRoom,
    InvalidRoom(Seq<u8>),
    Reg { room: Seq<u8>, cookie: Seq<u8> },
    Msg(Seq<u8>),
    Unknown(Seq<u8>),
}

impl<'a> View for Packet<'a> {
    type V = PacketView;

    open spec fn view(&self) -> PacketView {
        match self {
            Packet::Oversized => PacketView::Oversized,
            Packet::EmptyRoom => PacketView::EmptyRoom,
            Packet::InvalidRoom(r) => PacketView::InvalidRoom(r@),
            Packet::Reg { room, cookie } => PacketView::Reg { room: room@, cookie: cookie@ },
            Packet::Msg(p) => PacketView::Msg(p@),
            Packet::Unknown(p) => PacketView::Unknown(p@),
        }
    }
}

/// `REG `.
pub open spec fn reg_prefix() -> Seq<u8> {
    seq![82u8, 69u8, 71u8, 32u8]
}

/// `MSG `.
pub open spec fn msg_prefix() -> Seq<u8> {
    seq![77u8, 83u8, 71u8, 32u8]
}

/// Up to the first space, and what follows it.
pub open spec fn split_space(s: Seq<u8>) -> (Seq<u8>, Option<Seq<u8>>) {
    let i = crate::seqs::first_index(s, SPACE);
    if i < s.len() {
        (s.take(i), Some(s.skip(i + 1)))
    } else {
        (s, None)
    }
}

/// A REG by what follows `REG `.
pub open spec fn spec_parse_reg(rest: Seq<u8>) -> PacketView {
    let (room, tail) = split_space(rest);
    if room.len() == 0 {
        PacketView::EmptyRoom
    } else if !crate::room::spec_valid_room_name(room) {
        PacketView::InvalidRoom(room)
    } else {
        PacketView::Reg {
            room,
            cookie: match tail {
                Some(c) => crate::room::spec_trim(c),
                None => Seq::empty(),
            },
        }
    }
}

/// A datagram taken apart.
pub open spec fn spec_parse_packet(data: Seq<u8>) -> PacketView {
    let t = crate::room::spec_trim(data);
    if data.len() == 0 || data.len() > MAX_DATAGRAM_LEN {
        PacketView::Oversized
    } else if crate::seqs::begins_with(t, reg_prefix()) {
        spec_parse_reg(crate::room::spec_trim(t.skip(4)))
    } else if crate::seqs::begins_with(t, msg_prefix()) {
        PacketView::Msg(t.skip(4))
    } else {
        PacketView::Unknown(t)
    }
}

fn begins(s: &[u8], a: u8, b: u8, c: u8, d: u8) -> (r: bool)
    ensures
        r == crate::seqs::begins_with(s@, seq![a, b, c, d]),
{
    let r = s.len() >= 4 && s[0] == a && s[1] == b && s[2] == c && s[3] == d;
    proof {
        if s@.len() >= 4 {
            let p = seq![a, b, c, d];
            if r {
                assert(s@.take(4) =~= p);
            } else if s@.take(4) == p {
                assert(s@.take(4)[0] == a && s@.take(4)[1] == b && s@.take(4)[2] == c && s@.take(
                    4,
                )[3] == d);
            }
        }
    }
    r
}

fn split(s: &[u8]) -> (r: (&[u8], Option<&[u8]>))
    ensures
        r.0@ == split_space(s@).0,
        match r.1 {
            Some(t) => split_space(s@).1 == Some(t@),
            None => split_space(s@).1 is None,
        },
{
    let i = find_byte(s, SPACE);
    if i < s.len() {
        let head = slice_subrange(s, 0, i);
        let tail = slice_subrange(s, i + 1, s.len());
        assert(head@ =~= s@.take(i as int));
        assert(tail@ =~= s@.skip(i + 1));
        (head, Some(tail))
    } else {
        (s, None)
    }
}

pub fn parse_packet(data: &[u8]) -> (p: Packet<'_>)
    ensures
        p@ == spec_parse_packet(data@),
{
    if data.len() == 0 || data.len() > MAX_DATAGRAM_LEN {
        return Packet::Oversized;
    }
    let t = trim_ascii_space(data);
    if begins(t, 82, 69, 71, 32) {
        let after = slice_subrange(t, 4, t.len());
        assert(after@ =~= t@.skip(4));
        let rest = trim_ascii_space(after);
        let (room, tail) = split(rest);
        if room.len() == 0 {
            return Packet::EmptyRoom;
        }
        if !valid_room_name(room) {
            return Packet::InvalidRoom(room);
        }
        let cookie: &[u8] = match tail {
            Some(c) => trim_ascii_space(c),
            None => {
                let none = slice_subrange(rest, 0, 0);
                assert(none@ =~= Seq::empty());
                none
            },
        };
        Packet::Reg { room, cookie }
    } else if begins(t, 77, 83, 71, 32) {
        let after = slice_subrange(t, 4, t.len());
        assert(after@ =~= t@.skip(4));
        Packet::Msg(after)
    } else {
        Packet::Unknown(t)
    }
}

/// The two kinds of message that peers exchange.
#[derive(Clone, Copy, Debug, PartialEq, Eq, Structural)]
pub enum Phase {
    Spake2,
    Confirm,
}

impl Phase {
    pub open spec fn spec_name(self) -> Seq<char> {
        match self {
            Phase::Spake2 => "spake2"@,
            Phase::Confirm => "confirm"@,
        }
    }

    pub fn name(&self) -> (s: &'static str)
        ensures
            s@ == self.spec_name(),
    {
        match self {
            Phase::Spake2 => "spake2",
            Phase::Confirm => "confirm",
        }
    }
}

/// The phase that a name stands for.
pub open spec fn spec_parse_phase(s: Seq<u8>) -> Option<Phase> {
    if s == seq![115u8, 112u8, 97u8, 107u8, 101u8, 50u8] {
        Some(Phase::Spake2)
    } else if s == seq![99u8, 111u8, 110u8, 102u8, 105u8, 114u8, 109u8] {
        Some(Phase::Confirm)
    } else {
        None
    }
}

pub fn parse_phase(s: &[u8]) -> (r: Option<Phase>)
    ensures
        r == spec_parse_phase(s@),
{
    if s.len() == 6 && s[0] == 115 && s[1] == 112 && s[2] == 97 && s[3] == 107 && s[4] == 101
        && s[5] == 50 {
        assert(s@ =~= seq![115u8, 112u8, 97u8, 107u8, 101u8, 50u8]);
        Some(Phase::Spake2)
    } else if s.len() == 7 && s[0] == 99 && s[1] == 111 && s[2] == 110 && s[3] == 102 && s[4]
        == 105 && s[5] == 114 && s[6] == 109 {
        assert(s@ =~= seq![99u8, 111u8, 110u8, 102u8, 105u8, 114u8, 109u8]);
        Some(Phase::Confirm)
    } else {
        None
    }
}

/// What follows `MSG `, taken apart.
pub enum Message<'a> {
    /// Fewer than three words.
    Malformed,
    UnknownPhase { room: &'a [u8], name: &'a [u8] },
    InvalidRoom { room: &'a [u8] },
    /// A body that is not hex, or too long.
    InvalidBody { room: &'a [u8] },
    Valid { room: &'a [u8], phase: Phase, body: &'a [u8] },
}

/// A [`Message`] by its contents.
pub enum MessageView {
    Malformed,
    UnknownPhase { room: Seq<u8>, name: Seq<u8> },
    InvalidRoom { room: Seq<u8> },
    InvalidBody { room: Seq<u8> },
    Valid { room: Seq<u8>, phase: Phase, body: Seq<u8> },
}

impl<'a> View for Message<'a> {
    type V = MessageView;

    open spec fn view(&self) -> MessageView {
        match self {
            Message::Malformed => MessageView::Malformed,
            Message::UnknownPhase { room, name } => MessageView::UnknownPhase {
                room: room@,
                name: name@,
            },
            Message::InvalidRoom { room } => MessageView::InvalidRoom { room: room@ },
            Message::InvalidBody { room } => MessageView::InvalidBody { room: room@ },
            Message::Valid { room, phase, body } => MessageView::Valid {
                room: room@,
                phase: *phase,
                body: body@,
            },
        }
    }
}

/// A message taken apart.
pub open spec fn spec_parse_msg(payload: Seq<u8>) -> MessageView {
    let (room, rest) = split_space(payload);
    match rest {
        None => MessageView::Malformed,
        Some(rest) => {
            let (phase, body) = split_space(rest);
            match body {
                None => MessageView::Malformed,
                Some(body) => match spec_parse_phase(phase) {
                    None => MessageView::UnknownPhase { room, name: phase },
                    Some(p) => if !crate::room::spec_valid_room_name(room) {
                        MessageView::InvalidRoom { room }
                    } else if !crate::room::spec_is_valid_hex(body) || body.len()
                        > MAX_MSG_BODY_LEN {
                        MessageView::InvalidBody { room }
                    } else {
                        MessageView::Valid { room, phase: p, body }
                    },
                },
            }
        },
    }
}

pub fn parse_msg(payload: &[u8]) -> (m: Message<'_>)
    ensures
        m@ == spec_parse_msg(payload@),
{
    let (room, rest) = split(payload);
    match rest {
        None => Message::Malformed,
        Some(rest) => {
            let (phase, body) = split(rest);
            match body {
                None => Message::Malformed,
                Some(body) => match parse_phase(phase) {
                    None => Message::UnknownPhase { room, name: phase },
                    Some(p) => {
                        if !valid_room_name(room) {
                            Message::InvalidRoom { room }
                        } else if !is_valid_hex(body) || body.len() > MAX_MSG_BODY_LEN {
                            Message::InvalidBody { room }
                        } else {
                            Message::Valid { room, phase: p, body }
                        }
                    },
                },
            }
        },
    }
}

/// The characters of ASCII bytes.
pub open spec fn ascii_chars(s: Seq<u8>) -> Seq<char> {
    Seq::new(s.len(), |i: int| s[i] as char)
}

/// The string of ASCII bytes.
pub fn ascii_string(b: &[u8]) -> (s: String)
    requires
        forall|i: int| 0 <= i < b@.len() ==> #[trigger] b@[i] < 128,
    ensures
        s@ == ascii_chars(b@),
{
    let mut s = String::new();
    let mut i: usize = 0;
    while i < b.len()
        invariant
            i <= b@.len(),
            s@ == ascii_chars(b@.take(i as int)),
        decreases b@.len() - i,
    {
        s.push(b[i] as char);
        assert(s@ =~= ascii_chars(b@.take(i + 1)));
        i = i + 1;
    }
    assert(b@.take(i as int) =~= b@);
    s
}

} // verus!
