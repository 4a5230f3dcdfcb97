//! Strings as sequences of characters.
use vstd::prelude::*;

verus! {

/// `String::push` appends one character.
pub assume_specification[ String::push ](s: &mut String, c: char)
    ensures
        final(s)@ == old(s)@.push(c),
;

/// `String::push_str` appends the characters of a string slice.
pub assume_specification[ String::push_str ](s: &mut String, t: &str)
    ensures
        final(s)@ == old(s)@ + t@,
;

/// The characters of `s`.
pub fn chars_of(s: &str) -> (v: Vec<char>)
    ensures
        v@ == s@,
{
    let mut v: Vec<char> = Vec::new();
    for c in it: s.chars()
        invariant
            v@ == it.seq().take(it.index() as int),
    {
        v.push(c);
    }
    v
}

/// The string with the given characters.
pub fn string_of(v: &[char]) -> (s: String)
    ensures
        s@ == v@,
{
    let mut s = String::new();
    let mut i: usize = 0;
    while i < v.len()
        invariant
            i <= v.len(),
            s@ == v@.take(i as int),
        decreases v.len() - i,
    {
        s.push(v[i]);
        i = i + 1;
    }
    s
}

/// `a` followed by `b`.
pub fn join2(a: &str, b: &str) -> (s: String)
    ensures
        s@ == a@ + b@,
{
    let mut s = a.to_owned();
    s.push_str(b);
    s
}

/// What `String::from_utf8_lossy` makes of a byte string.
pub uninterp spec fn lossy_utf8(b: Seq<u8>) -> Seq<char>;

/// `String::from_utf8_lossy` reads bytes as UTF-8, with a replacement
/// character for each part that is not. Bytes that are UTF-8 throughout are
/// read as they are.
#[verifier::external_body]
pub(crate) fn from_utf8_lossy(b: &[u8]) -> (s: String)
    ensures
        s@ == lossy_utf8(b@),
        vstd::utf8::valid_utf8(b@) ==> s@ == vstd::utf8::decode_utf8(b@),
{
    String::from_utf8_lossy(b).into_owned()
}

/// `str::from_utf8` reads bytes as UTF-8; it fails just when they are not.
#[verifier::external_body]
pub(crate) fn from_utf8(b: &[u8]) -> (r: Option<&str>)
    ensures
        match r {
            Some(s) => vstd::utf8::valid_utf8(b@) && s@ == vstd::utf8::decode_utf8(b@),
            None => !vstd::utf8::valid_utf8(b@),
        },
{
    std::str::from_utf8(b).ok()
}

/// Bytes read as UTF-8, with replacement characters for what is not.
pub open spec fn lossy_text(b: Seq<u8>) -> Seq<char> {
    if vstd::utf8::valid_utf8(b) {
        vstd::utf8::decode_utf8(b)
    } else {
        lossy_utf8(b)
    }
}

/// What the `Debug` formatting of a string is: quoted, and escaped.
pub uninterp spec fn debug_text(s: Seq<char>) -> Seq<char>;

/// Printable ASCII without double quotes and backslashes.
pub open spec fn is_plain(s: Seq<char>) -> bool {
    forall|i: int|
        0 <= i < s.len() ==> ' ' <= #[trigger] s[i] <= '~' && s[i] != '"' && s[i] != '\\'
}

/// The `Debug` formatting of `str` puts a string in double quotes and escapes
/// what cannot be printed, quotes and backslashes. Printable ASCII without
/// these stands as it is between the quotes.
#[verifier::external_body]
pub(crate) fn quoted(s: &str) -> (r: String)
    ensures
        r@ == debug_text(s@),
        is_plain(s@) ==> r@ == seq!['"'] + s@ + seq!['"'],
{
    format!("{s:?}")
}

/// A string in double quotes, with what cannot stand between them escaped.
pub open spec fn quoted_text(s: Seq<char>) -> Seq<char> {
    if is_plain(s) {
        seq!['"'] + s + seq!['"']
    } else {
        debug_text(s)
    }
}

/// What `str::to_lowercase` makes of a string.
pub uninterp spec fn lowercase_text(s: Seq<char>) -> Seq<char>;

/// The lower-case form of an ASCII character.
pub open spec fn ascii_lower(c: char) -> char {
    if 'A' <= c <= 'Z' {
        (c as u32 + 32) as char
    } else {
        c
    }
}

/// `str::to_lowercase` gives the lower-case form of a string, by the rules of
/// Unicode. In ASCII, these make `a` to `z` of `A` to `Z` and leave all else as
/// it is.
#[verifier::external_body]
pub(crate) fn lowercase(s: &str) -> (r: String)
    ensures
        r@ == lowercase_text(s@),
        vstd::utf8::is_ascii_chars(s@) ==> r@ == s@.map_values(|c: char| ascii_lower(c)),
{
    s.to_lowercase()
}

/// A string in lower case.
pub open spec fn lower_text(s: Seq<char>) -> Seq<char> {
    if vstd::utf8::is_ascii_chars(s) {
        s.map_values(|c: char| ascii_lower(c))
    } else {
        lowercase_text(s)
    }
}

/// The pieces of `s` between the characters `x`.
pub open spec fn split_on(s: Seq<char>, x: char) -> Seq<Seq<char>>
    decreases s.len(),
{
    if s.len() == 0 {
        seq![Seq::empty()]
    } else {
        let p = split_on(s.drop_last(), x);
        if s.last() == x {
            p.push(Seq::empty())
        } else {
            p.update(p.len() - 1, p.last().push(s.last()))
        }
    }
}

/// There is always a piece.
pub proof fn lemma_split_on_len(s: Seq<char>, x: char)
    ensures
        split_on(s, x).len() >= 1,
    decreases s.len(),
{
    if s.len() > 0 {
        lemma_split_on_len(s.drop_last(), x);
    }
}

/// The views of a list of character lists.
pub open spec fn char_views(v: Seq<Vec<char>>) -> Seq<Seq<char>> {
    Seq::new(v.len(), |i: int| v[i]@)
}

/// Splits `s` at each character `x`.
pub fn split_chars(s: &[char], x: char) -> (r: Vec<Vec<char>>)
    ensures
        char_views(r@) == split_on(s@, x),
{
    let mut done: Vec<Vec<char>> = Vec::new();
    let mut cur: Vec<char> = Vec::new();
    let mut i: usize = 0;
    proof {
        assert(s@.take(0) =~= Seq::empty());
        assert(char_views(done@).push(cur@) =~= seq![Seq::<char>::empty()]);
    }
    while i < s.len()
        invariant
            i <= s@.len(),
            char_views(done@).push(cur@) == split_on(s@.take(i as int), x),
        decreases s@.len() - i,
    {
        let ghost t = s@.take(i + 1);
        let ghost p = split_on(s@.take(i as int), x);
        assert(t.drop_last() =~= s@.take(i as int));
        assert(t.last() == s@[i as int]);
        assert(p.last() == cur@);
        if s[i] == x {
            done.push(cur);
            cur = Vec::new();
            assert(char_views(done@) =~= p);
            assert(char_views(done@).push(cur@) =~= split_on(t, x));
        } else {
            cur.push(s[i]);
            assert(char_views(done@).push(cur@) =~= split_on(t, x));
        }
        i = i + 1;
    }
    assert(s@.take(i as int) =~= s@);
    let ghost d = done@;
    let ghost c = cur@;
    done.push(cur);
    assert(char_views(done@) =~= char_views(d).push(c));
    done
}

/// `p` occurs in `s` at position `i`.
pub open spec fn occurs_at(s: Seq<char>, p: Seq<char>, i: int) -> bool {
    0 <= i && i + p.len() <= s.len() && s.subrange(i, i + p.len()) == p
}

/// `p` occurs in `s`.
pub open spec fn occurs_in(s: Seq<char>, p: Seq<char>) -> bool {
    exists|i: int| #[trigger] occurs_at(s, p, i)
}

fn matches_at(s: &[char], p: &[char], i: usize) -> (b: bool)
    requires
        i <= s@.len(),
    ensures
        b == occurs_at(s@, p@, i as int),
{
    if p.len() > s.len() - i {
        return false;
    }
    crate::seqs::same_chars(vstd::slice::slice_subrange(s, i, i + p.len()), p)
}

/// Whether `p` occurs in `s`.
pub fn contains_chars(s: &[char], p: &[char]) -> (b: bool)
    ensures
        b == occurs_in(s@, p@),
{
    let mut i: usize = 0;
    while i <= s.len()
        invariant
            i <= s@.len() + 1,
            forall|j: int| 0 <= j < i ==> !(#[trigger] occurs_at(s@, p@, j)),
        decreases s@.len() + 1 - i,
    {
        if matches_at(s, p, i) {
            return true;
        }
        if i == s.len() {
            assert forall|j: int| !(#[trigger] occurs_at(s@, p@, j)) by {
                if j >= 0 && j <= i {
                    if j == i {
                        assert(!occurs_at(s@, p@, i as int));
                    }
                }
            }
            return false;
        }
        i = i + 1;
    }
    false
}

/// Position of the last `p` in `s`, -1 when there is none.
pub open spec fn last_occurrence(s: Seq<char>, p: Seq<char>, from: int) -> int
    decreases from + 1,
{
    if from < 0 {
        -1
    } else if occurs_at(s, p, from) {
        from
    } else {
        last_occurrence(s, p, from - 1)
    }
}

/// What follows the last `p` in `s`; all of `s` when there is none.
pub open spec fn after_last(s: Seq<char>, p: Seq<char>) -> Seq<char> {
    let i = last_occurrence(s, p, s.len() as int);
    if i < 0 {
        s
    } else {
        s.skip(i + p.len())
    }
}

/// The part of `s` after the last `p`.
pub fn rest_after_last<'a>(s: &'a [char], p: &[char]) -> (r: &'a [char])
    ensures
        r@ == after_last(s@, p@),
{
    let mut i: usize = s.len();
    loop
        invariant
            i <= s@.len(),
            last_occurrence(s@, p@, s@.len() as int) == last_occurrence(s@, p@, i as int),
        decreases i,
    {
        if matches_at(s, p, i) {
            let n: usize = s.len();
            let r = vstd::slice::slice_subrange(s, i + p.len(), n);
            assert(r@ =~= s@.skip(i + p@.len()));
            return r;
        }
        if i == 0 {
            assert(last_occurrence(s@, p@, 0) == -1) by {
                assert(last_occurrence(s@, p@, -1) == -1);
            }
            return s;
        }
        i = i - 1;
    }
}

/// White space, by the Unicode property of that name.
pub open spec fn spec_is_whitespace(c: char) -> bool {
    let u = c as u32;
    ||| 9 <= u <= 13
    ||| u == 0x20
    ||| u == 0x85
    ||| u == 0xa0
    ||| u == 0x1680
    ||| 0x2000 <= u <= 0x200a
    ||| u == 0x2028
    ||| u == 0x2029
    ||| u == 0x202f
    ||| u == 0x205f
    ||| u == 0x3000
}

pub fn is_whitespace(c: char) -> (b: bool)
    ensures
        b == spec_is_whitespace(c),
{
    let u: u32 = c as u32;
    (9 <= u && u <= 13) || u == 0x20 || u == 0x85 || u == 0xa0 || u == 0x1680 || (0x2000 <= u && u
        <= 0x200a) || u == 0x2028 || u == 0x2029 || u == 0x202f || u == 0x205f || u == 0x3000
}

/// The words of `s`: its pieces between white space, without empty ones.
pub open spec fn words(s: Seq<char>) -> Seq<Seq<char>>
    decreases s.len(),
{
    if s.len() == 0 {
        Seq::empty()
    } else {
        let t = s.drop_last();
        let p = words(t);
        if spec_is_whitespace(s.last()) {
            p
        } else if t.len() == 0 || spec_is_whitespace(t.last()) {
            p.push(seq![s.last()])
        } else {
            p.update(p.len() - 1, p.last().push(s.last()))
        }
    }
}

/// The words of `s`.
pub fn split_words(s: &[char]) -> (r: Vec<Vec<char>>)
    ensures
        char_views(r@) == words(s@),
{
    let mut done: Vec<Vec<char>> = Vec::new();
    let mut cur: Vec<char> = Vec::new();
    let mut i: usize = 0;
    proof {
        assert(s@.take(0) =~= Seq::empty());
        assert(char_views(done@) =~= Seq::empty());
    }
    while i < s.len()
        invariant
            i <= s@.len(),
            cur@.len() == 0 <==> (i == 0 || spec_is_whitespace(s@[i - 1])),
            words(s@.take(i as int)) == (if cur@.len() == 0 {
                char_views(done@)
            } else {
                char_views(done@).push(cur@)
            }),
        decreases s@.len() - i,
    {
        let ghost t = s@.take(i + 1);
        let ghost p = words(s@.take(i as int));
        let ghost d0 = done@;
        let ghost c0 = cur@;
        assert(t.drop_last() =~= s@.take(i as int));
        assert(t.last() == s@[i as int]);
        if is_whitespace(s[i]) {
            if cur.len() > 0 {
                done.push(cur);
                cur = Vec::new();
                assert(char_views(done@) =~= char_views(d0).push(c0));
            }
        } else {
            cur.push(s[i]);
            proof {
                if c0.len() == 0 {
                    assert(cur@ =~= seq![s@[i as int]]);
                } else {
                    assert(s@.take(i as int).last() == s@[i - 1]);
                    assert(char_views(d0).push(cur@) =~= p.update(p.len() - 1, cur@));
                }
            }
        }
        i = i + 1;
    }
    assert(s@.take(i as int) =~= s@);
    if cur.len() > 0 {
        let ghost d0 = done@;
        let ghost c0 = cur@;
        done.push(cur);
        assert(char_views(done@) =~= char_views(d0).push(c0));
    }
    done
}

} // verus!
