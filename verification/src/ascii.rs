//! ASCII text and its encoding.
use vstd::prelude::*;

use crate::packet::ascii_chars;

verus! {

/// The bytes of ASCII characters.
pub open spec fn to_bytes(s: Seq<char>) -> Seq<u8> {
    Seq::new(s.len(), |i: int| s[i] as u8)
}

/// ASCII characters are encoded one byte each.
pub proof fn lemma_ascii(s: Seq<char>)
    requires
        vstd::utf8::is_ascii_chars(s),
    ensures
        vstd::utf8::encode_utf8(s) == to_bytes(s),
        ascii_chars(to_bytes(s)) == s,
{
    vstd::utf8::is_ascii_chars_encode_utf8(s);
    assert(vstd::utf8::encode_utf8(s) =~= to_bytes(s));
    assert forall|i: int| 0 <= i < s.len() implies ascii_chars(to_bytes(s))[i] == s[i] by {
        assert('\0' <= s[i] <= '\u{7f}');
    }
    assert(ascii_chars(to_bytes(s)) =~= s);
}

/// Bytes below 128 are the encoding of their characters.
pub proof fn lemma_bytes(b: Seq<u8>)
    requires
        forall|i: int| 0 <= i < b.len() ==> #[trigger] b[i] < 128,
    ensures
        vstd::utf8::is_ascii_chars(ascii_chars(b)),
        to_bytes(ascii_chars(b)) == b,
        vstd::utf8::encode_utf8(ascii_chars(b)) == b,
        vstd::utf8::valid_utf8(b),
        vstd::utf8::decode_utf8(b) == ascii_chars(b),
{
    let s = ascii_chars(b);
    assert forall|i: int| 0 <= i < s.len() implies '\0' <= #[trigger] s[i] <= '\u{7f}' by {
        assert(b[i] < 128);
    }
    assert(to_bytes(s) =~= b) by {
        assert forall|i: int| 0 <= i < b.len() implies to_bytes(s)[i] == b[i] by {
            assert(b[i] < 128);
        }
    }
    lemma_ascii(s);
    vstd::utf8::encode_utf8_valid_utf8(s);
    vstd::utf8::encode_utf8_decode_utf8(s);
}

/// The bytes of two ASCII texts in a row.
pub proof fn lemma_concat_ascii(a: Seq<char>, b: Seq<char>)
    requires
        vstd::utf8::is_ascii_chars(a),
        vstd::utf8::is_ascii_chars(b),
    ensures
        vstd::utf8::is_ascii_chars(a + b),
        to_bytes(a + b) == to_bytes(a) + to_bytes(b),
{
    assert forall|i: int| 0 <= i < (a + b).len() implies '\0' <= #[trigger] (a + b)[i]
        <= '\u{7f}' by {
        if i < a.len() {
            assert((a + b)[i] == a[i]);
        } else {
            assert((a + b)[i] == b[i - a.len()]);
        }
    }
    assert(to_bytes(a + b) =~= to_bytes(a) + to_bytes(b));
}

} // verus!
