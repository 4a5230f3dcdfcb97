//! Searching and comparing sequences.
use vstd::prelude::*;
use vstd::slice::slice_subrange;

verus! {

/// Position of the first `x` in `s`, the length of `s` when there is none.
pub open spec fn first_index<A>(s: Seq<A>, x: A) -> int
    decreases s.len(),
{
    if s.len() == 0 {
        0
    } else if s[0] == x {
        0
    } else {
        1 + first_index(s.drop_first(), x)
    }
}

/// A position before which `x` does not occur, and at which it does unless
/// the sequence ends there, is the first.
pub proof fn lemma_first_index<A>(s: Seq<A>, x: A, i: int)
    requires
        0 <= i <= s.len(),
        forall|j: int| 0 <= j < i ==> s[j] != x,
        i < s.len() ==> s[i] == x,
    ensures
        first_index(s, x) == i,
    decreases i,
{
    if i > 0 {
        let t = s.drop_first();
        assert forall|j: int| 0 <= j < i - 1 implies t[j] != x by {
            assert(s[j + 1] != x);
        }
        lemma_first_index(t, x, i - 1);
    }
}

/// What [`first_index`] finds.
pub proof fn lemma_first_index_found<A>(s: Seq<A>, x: A)
    ensures
        0 <= first_index(s, x) <= s.len(),
        forall|j: int| 0 <= j < first_index(s, x) ==> s[j] != x,
        first_index(s, x) < s.len() ==> s[first_index(s, x)] == x,
    decreases s.len(),
{
    if s.len() > 0 && s[0] != x {
        let t = s.drop_first();
        lemma_first_index_found(t, x);
        assert forall|j: int| 0 <= j < first_index(s, x) implies s[j] != x by {
            if j > 0 {
                assert(t[j - 1] != x);
            }
        }
    }
}

/// Position of the first byte `x`, or the length.
pub fn find_byte(s: &[u8], x: u8) -> (i: usize)
    ensures
        i == first_index(s@, x),
        i <= s@.len(),
{
    let mut i: usize = 0;
    while i < s.len() && s[i] != x
        invariant
            i <= s@.len(),
            forall|j: int| 0 <= j < i ==> s@[j] != x,
        decreases s@.len() - i,
    {
        i = i + 1;
    }
    proof {
        lemma_first_index(s@, x, i as int);
    }
    i
}

/// Position of the first character `x`, or the length.
pub fn find_char(s: &[char], x: char) -> (i: usize)
    ensures
        i == first_index(s@, x),
        i <= s@.len(),
{
    let mut i: usize = 0;
    while i < s.len() && s[i] != x
        invariant
            i <= s@.len(),
            forall|j: int| 0 <= j < i ==> s@[j] != x,
        decreases s@.len() - i,
    {
        i = i + 1;
    }
    proof {
        lemma_first_index(s@, x, i as int);
    }
    i
}

/// Position of the last `x` in `s`, -1 when there is none.
pub open spec fn last_index<A>(s: Seq<A>, x: A) -> int
    decreases s.len(),
{
    if s.len() == 0 {
        -1
    } else if s.last() == x {
        s.len() - 1
    } else {
        last_index(s.drop_last(), x)
    }
}

/// What [`last_index`] finds.
pub proof fn lemma_last_index_found<A>(s: Seq<A>, x: A)
    ensures
        -1 <= last_index(s, x) < s.len(),
        forall|j: int| last_index(s, x) < j < s.len() ==> s[j] != x,
        last_index(s, x) >= 0 ==> s[last_index(s, x)] == x,
    decreases s.len(),
{
    if s.len() > 0 && s.last() != x {
        let t = s.drop_last();
        lemma_last_index_found(t, x);
        assert forall|j: int| last_index(s, x) < j < s.len() implies s[j] != x by {
            if j < s.len() - 1 {
                assert(t[j] != x);
            }
        }
    }
}

/// Position of the last character `x`.
pub fn rfind_char(s: &[char], x: char) -> (r: Option<usize>)
    ensures
        match r {
            Some(i) => i == last_index(s@, x) && i < s@.len(),
            None => last_index(s@, x) == -1,
        },
{
    let mut i: usize = s.len();
    assert(s@.take(i as int) =~= s@);
    while i > 0
        invariant
            i <= s@.len(),
            last_index(s@.take(i as int), x) == last_index(s@, x),
        decreases i,
    {
        assert(s@.take(i as int).last() == s@[i - 1]);
        if s[i - 1] == x {
            return Some(i - 1);
        }
        assert(s@.take(i as int).drop_last() =~= s@.take(i - 1));
        i = i - 1;
    }
    None
}

/// Equality of byte strings.
pub fn same_bytes(a: &[u8], b: &[u8]) -> (r: bool)
    ensures
        r == (a@ == b@),
{
    if a.len() != b.len() {
        return false;
    }
    let mut i: usize = 0;
    while i < a.len()
        invariant
            i <= a@.len(),
            a@.len() == b@.len(),
            forall|j: int| 0 <= j < i ==> a@[j] == b@[j],
        decreases a@.len() - i,
    {
        if a[i] != b[i] {
            return false;
        }
        i = i + 1;
    }
    assert(a@ =~= b@);
    true
}

/// Equality of character strings.
pub fn same_chars(a: &[char], b: &[char]) -> (r: bool)
    ensures
        r == (a@ == b@),
{
    if a.len() != b.len() {
        return false;
    }
    let mut i: usize = 0;
    while i < a.len()
        invariant
            i <= a@.len(),
            a@.len() == b@.len(),
            forall|j: int| 0 <= j < i ==> a@[j] == b@[j],
        decreases a@.len() - i,
    {
        if a[i] != b[i] {
            return false;
        }
        i = i + 1;
    }
    assert(a@ =~= b@);
    true
}

/// `s` begins with `p`.
pub open spec fn begins_with<A>(s: Seq<A>, p: Seq<A>) -> bool {
    s.len() >= p.len() && s.take(p.len() as int) == p
}

pub fn bytes_begin_with(s: &[u8], p: &[u8]) -> (r: bool)
    ensures
        r == begins_with(s@, p@),
{
    if s.len() < p.len() {
        return false;
    }
    let head = slice_subrange(s, 0, p.len());
    assert(head@ =~= s@.take(p@.len() as int));
    same_bytes(head, p)
}

} // verus!
