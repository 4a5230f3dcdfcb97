//! Hexadecimal text.
use vstd::prelude::*;

verus! {

/// The lower-case digit of a number below sixteen.
pub open spec fn hex_digit(n: int) -> char {
    if n < 10 {
        (48 + n) as char
    } else {
        (87 + n) as char
    }
}

/// Two lower-case digits for each byte, the high half first.
pub open spec fn spec_to_hex(s: Seq<u8>) -> Seq<char> {
    Seq::new(
        2 * s.len(),
        |i: int|
            hex_digit(
                if i % 2 == 0 {
                    s[i / 2] as int / 16
                } else {
                    s[i / 2] as int % 16
                },
            ),
    )
}

/// The value of a hex digit of either case.
pub open spec fn hex_value(c: u8) -> int {
    if c <= 57 {
        c - 48
    } else if c <= 70 {
        c - 55
    } else {
        c - 87
    }
}

/// The bytes that a text of hex digits stands for; nothing for a text of odd
/// length or with another character in it.
pub open spec fn spec_hex_decode(s: Seq<u8>) -> Option<Seq<u8>> {
    if s.len() % 2 == 0 && (forall|i: int|
        0 <= i < s.len() ==> crate::room::is_hex_digit(#[trigger] s[i])) {
        Some(
            Seq::new(
                s.len() / 2,
                |i: int| (hex_value(s[2 * i]) * 16 + hex_value(s[2 * i + 1])) as u8,
            ),
        )
    } else {
        None
    }
}

fn digit(n: u8) -> (c: char)
    requires
        n < 16,
    ensures
        c == hex_digit(n as int),
{
    if n < 10 {
        (48 + n) as char
    } else {
        (87 + n) as char
    }
}

pub fn to_hex_lower(b: &[u8]) -> (s: String)
    ensures
        s@ == spec_to_hex(b@),
{
    let mut s = String::new();
    let mut i: usize = 0;
    while i < b.len()
        invariant
            i <= b@.len(),
            s@ == spec_to_hex(b@.take(i as int)),
        decreases b@.len() - i,
    {
        s.push(digit(b[i] / 16));
        s.push(digit(b[i] % 16));
        proof {
            let t = b@.take(i + 1);
            assert(t[i as int] == b@[i as int]);
            assert(s@ =~= spec_to_hex(t)) by {
                assert forall|j: int| 0 <= j < s@.len() implies s@[j] == spec_to_hex(t)[j] by {
                    if j < 2 * i {
                        assert(t[j / 2] == b@.take(i as int)[j / 2]);
                    }
                }
            }
        }
        i = i + 1;
    }
    assert(b@.take(i as int) =~= b@);
    s
}

fn value(c: u8) -> (r: Option<u8>)
    ensures
        match r {
            Some(v) => crate::room::is_hex_digit(c) && v == hex_value(c) && v < 16,
            None => !crate::room::is_hex_digit(c),
        },
{
    if 48 <= c && c <= 57 {
        Some(c - 48)
    } else if 97 <= c && c <= 102 {
        Some(c - 87)
    } else if 65 <= c && c <= 70 {
        Some(c - 55)
    } else {
        None
    }
}

/// Decodes hex digits of either case.
pub fn hex_decode_bytes(b: &[u8]) -> (r: Option<Vec<u8>>)
    ensures
        match r {
            Some(v) => spec_hex_decode(b@) == Some(v@),
            None => spec_hex_decode(b@) is None,
        },
{
    if b.len() % 2 != 0 {
        return None;
    }
    let mut out: Vec<u8> = Vec::new();
    let mut i: usize = 0;
    while i < b.len()
        invariant
            b@.len() % 2 == 0,
            i % 2 == 0,
            i <= b@.len(),
            out@.len() == i / 2,
            forall|j: int| 0 <= j < i ==> crate::room::is_hex_digit(#[trigger] b@[j]),
            forall|j: int|
                0 <= j < i / 2 ==> out@[j] == (hex_value(b@[2 * j]) * 16 + hex_value(
                    b@[2 * j + 1],
                )) as u8,
        decreases b@.len() - i,
    {
        match (value(b[i]), value(b[i + 1])) {
            (Some(hi), Some(lo)) => {
                out.push(hi * 16 + lo);
            },
            _ => {
                assert(!crate::room::is_hex_digit(b@[i as int]) || !crate::room::is_hex_digit(
                    b@[i + 1],
                ));
                return None;
            },
        }
        i = i + 2;
    }
    assert(spec_hex_decode(b@)->0 =~= out@);
    Some(out)
}

/// Decodes hex digits of either case.
pub fn hex_decode(s: &str) -> (r: Option<Vec<u8>>)
    ensures
        match r {
            Some(v) => spec_hex_decode(vstd::utf8::encode_utf8(s@)) == Some(v@),
            None => spec_hex_decode(vstd::utf8::encode_utf8(s@)) is None,
        },
{
    hex_decode_bytes(s.as_bytes())
}

/// Decoding what was encoded gives the bytes back.
pub proof fn law_hex_round_trip(b: Seq<u8>)
    ensures
        spec_hex_decode(vstd::utf8::encode_utf8(spec_to_hex(b))) == Some(b),
{
    let h = spec_to_hex(b);
    vstd::utf8::is_ascii_chars_encode_utf8(h);
    let e = vstd::utf8::encode_utf8(h);
    assert forall|i: int| 0 <= i < h.len() implies 0 <= #[trigger] (h[i] as int) < 128 && (e[i]
        == h[i] as u8) && crate::room::is_hex_digit(e[i]) by {
        assert(h[i] == hex_digit(
            if i % 2 == 0 {
                b[i / 2] as int / 16
            } else {
                b[i / 2] as int % 16
            },
        ));
    }
    assert(vstd::utf8::is_ascii_chars(h));
    assert(e.len() == h.len());
    assert forall|i: int| 0 <= i < b.len() implies (hex_value(e[2 * i]) * 16 + hex_value(
        e[2 * i + 1],
    )) as u8 == b[i] by {
        assert(h[2 * i] == hex_digit(b[i] as int / 16)) by {
            assert((2 * i) / 2 == i);
        }
        assert(h[2 * i + 1] == hex_digit(b[i] as int % 16)) by {
            assert((2 * i + 1) / 2 == i);
        }
        assert(e[2 * i] == h[2 * i] as u8);
        assert(e[2 * i + 1] == h[2 * i + 1] as u8);
    }
    assert(spec_hex_decode(e)->0 =~= b);
}

} // verus!
