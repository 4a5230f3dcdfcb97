//! How tunnel specifications on the command line are read.
use vstd::prelude::*;

use crate::tunnel_request::{
    bracket_depth, brackets_match, colon_parts, spec_parse_request, spec_strip_brackets,
};

verus! {

/// Neither brackets nor colons.
pub open spec fn is_plain_part(s: Seq<char>) -> bool {
    forall|i: int| 0 <= i < s.len() ==> #[trigger] s[i] != '[' && s[i] != ']' && s[i] != ':'
}

/// No brackets.
pub open spec fn without_brackets(s: Seq<char>) -> bool {
    forall|i: int| 0 <= i < s.len() ==> #[trigger] s[i] != '[' && s[i] != ']'
}

/// A part of a specification: without brackets and colons, or in brackets.
pub open spec fn is_part(s: Seq<char>) -> bool {
    is_plain_part(s) || exists|x: Seq<char>| without_brackets(x) && s == #[trigger] in_brackets(x)
}

/// A text in brackets.
pub open spec fn in_brackets(x: Seq<char>) -> Seq<char> {
    seq!['['] + x + seq![']']
}

/// Parts with a colon between them.
pub open spec fn with_colons(ps: Seq<Seq<char>>) -> Seq<char>
    decreases ps.len(),
{
    if ps.len() == 0 {
        Seq::empty()
    } else if ps.len() == 1 {
        ps[0]
    } else {
        with_colons(ps.drop_last()) + seq![':'] + ps.last()
    }
}

/// A host in a specification: in brackets if it has a colon.
pub open spec fn host_part(h: Seq<char>) -> Seq<char> {
    if h.contains(':') {
        in_brackets(h)
    } else {
        h
    }
}

/// A host and a port as an address: the host in brackets if it has a colon.
pub open spec fn address(h: Seq<char>, port: Seq<char>) -> Seq<char> {
    host_part(h) + seq![':'] + port
}

/// Brackets are never closed more often than opened.
spec fn never_below(s: Seq<char>) -> bool {
    forall|i: int| 0 <= i <= s.len() ==> bracket_depth(#[trigger] s.take(i)) >= 0
}

proof fn lemma_push(a: Seq<char>, c: char)
    requires
        never_below(a),
        colon_parts(a).len() > 0,
        bracket_depth(a.push(c)) >= 0,
    ensures
        never_below(a.push(c)),
        bracket_depth(a.push(c)) == bracket_depth(a) + (if c == '[' {
            1int
        } else if c == ']' {
            -1int
        } else {
            0int
        }),
        colon_parts(a.push(c)) == (if c == ':' && bracket_depth(a) == 0 {
            colon_parts(a).push(Seq::empty())
        } else {
            colon_parts(a).drop_last().push(colon_parts(a).last().push(c))
        }),
{
    let s = a.push(c);
    let p = colon_parts(a);
    assert(s.drop_last() =~= a);
    assert forall|i: int| 0 <= i <= s.len() implies bracket_depth(#[trigger] s.take(i)) >= 0 by {
        if i <= a.len() {
            assert(s.take(i) =~= a.take(i));
        } else {
            assert(s.take(i) =~= s);
        }
    }
    assert(p.update(p.len() - 1, p.last().push(c)) =~= p.drop_last().push(p.last().push(c)));
}

proof fn lemma_append(a: Seq<char>, x: Seq<char>)
    requires
        never_below(a),
        colon_parts(a).len() > 0,
        without_brackets(x),
        bracket_depth(a) > 0 || is_plain_part(x),
    ensures
        never_below(a + x),
        bracket_depth(a + x) == bracket_depth(a),
        colon_parts(a + x) == colon_parts(a).drop_last().push(colon_parts(a).last() + x),
    decreases x.len(),
{
    let p = colon_parts(a);
    if x.len() == 0 {
        assert(a + x =~= a);
        assert(p.last() + x =~= p.last());
        assert(p.drop_last().push(p.last()) =~= p);
    } else {
        let y = x.drop_last();
        let c = x.last();
        assert forall|i: int| 0 <= i < y.len() implies #[trigger] y[i] != '[' && y[i] != ']' by {
            assert(y[i] == x[i]);
        }
        if bracket_depth(a) <= 0 {
            assert forall|i: int| 0 <= i < y.len() implies #[trigger] y[i] != '[' && y[i] != ']'
                && y[i] != ':' by {
                assert(y[i] == x[i]);
            }
        }
        assert(x[x.len() - 1] == c);
        lemma_append(a, y);
        let b = a + y;
        assert(a + x =~= b.push(c));
        assert(b.push(c).drop_last() =~= b);
        assert(bracket_depth(a.take(a.len() as int)) >= 0);
        assert(a.take(a.len() as int) =~= a);
        lemma_push(b, c);
        assert(colon_parts(b).drop_last() =~= p.drop_last());
        assert((p.last() + y).push(c) =~= p.last() + x);
    }
}

proof fn lemma_append_part(a: Seq<char>, x: Seq<char>)
    requires
        never_below(a),
        colon_parts(a).len() > 0,
        bracket_depth(a) == 0,
        is_part(x),
    ensures
        never_below(a + x),
        bracket_depth(a + x) == 0,
        colon_parts(a + x) == colon_parts(a).drop_last().push(colon_parts(a).last() + x),
{
    if is_plain_part(x) {
        lemma_append(a, x);
    } else {
        let y = choose|y: Seq<char>| without_brackets(y) && x == #[trigger] in_brackets(y);
        let p = colon_parts(a);
        let b = a.push('[');
        assert(b.drop_last() =~= a);
        lemma_push(a, '[');
        lemma_append(b, y);
        let c = b + y;
        assert(c.push(']').drop_last() =~= c);
        lemma_push(c, ']');
        assert(a + x =~= c.push(']'));
        assert(colon_parts(b).drop_last() =~= p.drop_last());
        assert(colon_parts(c).drop_last() =~= p.drop_last());
        assert((p.last().push('[') + y).push(']') =~= p.last() + x);
    }
}

/// A text of parts with colons between them comes apart into these parts.
pub proof fn law_parts(ps: Seq<Seq<char>>)
    requires
        ps.len() > 0,
        forall|i: int| 0 <= i < ps.len() ==> is_part(#[trigger] ps[i]),
    ensures
        brackets_match(with_colons(ps)),
        colon_parts(with_colons(ps)) == ps,
    decreases ps.len(),
{
    let s = with_colons(ps);
    lemma_empty();
    if ps.len() == 1 {
        let e = Seq::<char>::empty();
        lemma_append_part(e, ps[0]);
        assert(e + ps[0] =~= s);
        assert(colon_parts(e).drop_last().push(colon_parts(e).last() + ps[0]) =~= ps);
    } else {
        let qs = ps.drop_last();
        assert forall|i: int| 0 <= i < qs.len() implies is_part(#[trigger] qs[i]) by {
            assert(qs[i] == ps[i]);
        }
        law_parts(qs);
        let a = with_colons(qs);
        let b = a.push(':');
        assert(b.drop_last() =~= a);
        lemma_push(a, ':');
        assert(is_part(ps[ps.len() - 1]));
        lemma_append_part(b, ps.last());
        assert(b + ps.last() =~= s);
        assert(colon_parts(b) == qs.push(Seq::empty()));
        assert(colon_parts(b).drop_last() =~= qs);
        assert(Seq::<char>::empty() + ps.last() =~= ps.last());
        assert(qs.push(ps.last()) =~= ps);
    }
}

proof fn lemma_empty()
    ensures
        never_below(Seq::<char>::empty()),
        colon_parts(Seq::<char>::empty()) == seq![Seq::<char>::empty()],
        bracket_depth(Seq::<char>::empty()) == 0,
{
    let e = Seq::<char>::empty();
    assert forall|i: int| 0 <= i <= e.len() implies bracket_depth(#[trigger] e.take(i)) >= 0 by {
        assert(e.take(i) =~= e);
    }
}

proof fn lemma_host_part(h: Seq<char>)
    requires
        without_brackets(h),
    ensures
        is_part(host_part(h)),
        spec_strip_brackets(host_part(h)) == h,
{
    if h.contains(':') {
        assert(in_brackets(h).subrange(1, in_brackets(h).len() - 1) =~= h);
    } else {
        assert forall|i: int| 0 <= i < h.len() implies #[trigger] h[i] != '[' && h[i] != ']'
            && h[i] != ':' by {
            assert(h.contains(h[i]));
        }
    }
}

proof fn lemma_join(h: Seq<char>, port: Seq<char>)
    ensures
        crate::resolver::spec_join_host_port(h, port) == address(h, port),
{
    reveal_strlit("[");
    reveal_strlit("]:");
    reveal_strlit(":");
    assert(crate::resolver::spec_join_host_port(h, port) =~= address(h, port));
}

/// `host:port:target:port` asks to listen on that host and port and to connect
/// to that target, whoever is to listen; without the host, or with an empty
/// one, on the loopback address. Hosts with a colon stand in brackets.
pub proof fn law_specification_is_read(
    h: Seq<char>,
    p: Seq<char>,
    t: Seq<char>,
    q: Seq<char>,
    typ: Seq<char>,
)
    requires
        without_brackets(h),
        without_brackets(t),
        is_plain_part(p),
        is_plain_part(q),
    ensures
        ({
            let full = host_part(h) + seq![':'] + p + seq![':'] + host_part(t) + seq![':'] + q;
            let short = p + seq![':'] + host_part(t) + seq![':'] + q;
            let a = spec_parse_request(full, typ);
            let b = spec_parse_request(short, typ);
            &&& a is Some && b is Some
            &&& a->0.typ == typ && b->0.typ == typ
            &&& a->0.listen == (if h.len() > 0 {
                address(h, p)
            } else {
                "127.0.0.1:"@ + p
            })
            &&& b->0.listen == "127.0.0.1:"@ + p
            &&& a->0.target == address(t, q)
            &&& b->0.target == address(t, q)
        }),
{
    lemma_host_part(h);
    lemma_host_part(t);
    let full = host_part(h) + seq![':'] + p + seq![':'] + host_part(t) + seq![':'] + q;
    let short = p + seq![':'] + host_part(t) + seq![':'] + q;
    lemma_four(host_part(h), p, host_part(t), q);
    lemma_three(p, host_part(t), q);
    lemma_join(h, p);
    lemma_join(t, q);
    lemma_loopback(p);
    assert(colon_parts(full)[0] == host_part(h));
    assert(colon_parts(short)[0] == p);
}

proof fn lemma_loopback(p: Seq<char>)
    ensures
        crate::resolver::spec_join_host_port("127.0.0.1"@, p) == "127.0.0.1:"@ + p,
{
    lemma_join("127.0.0.1"@, p);
    reveal_strlit("127.0.0.1");
    reveal_strlit("127.0.0.1:");
    assert(!"127.0.0.1"@.contains(':'));
    assert(address("127.0.0.1"@, p) =~= "127.0.0.1:"@ + p);
}

proof fn lemma_three(a: Seq<char>, b: Seq<char>, c: Seq<char>)
    requires
        is_part(a),
        is_part(b),
        is_part(c),
    ensures
        ({
            let s = a + seq![':'] + b + seq![':'] + c;
            brackets_match(s) && colon_parts(s) == seq![a, b, c]
        }),
{
    let ps = seq![a, b, c];
    law_parts(ps);
    assert(ps.drop_last() =~= seq![a, b]);
    assert(seq![a, b].drop_last() =~= seq![a]);
    assert(with_colons(seq![a]) == a);
    assert(with_colons(seq![a, b]) == a + seq![':'] + b);
    assert(with_colons(ps) == a + seq![':'] + b + seq![':'] + c);
}

proof fn lemma_four(a: Seq<char>, b: Seq<char>, c: Seq<char>, d: Seq<char>)
    requires
        is_part(a),
        is_part(b),
        is_part(c),
        is_part(d),
    ensures
        ({
            let s = a + seq![':'] + b + seq![':'] + c + seq![':'] + d;
            brackets_match(s) && colon_parts(s) == seq![a, b, c, d]
        }),
{
    let ps = seq![a, b, c, d];
    law_parts(ps);
    assert(ps.drop_last() =~= seq![a, b, c]);
    assert(seq![a, b, c].drop_last() =~= seq![a, b]);
    assert(seq![a, b].drop_last() =~= seq![a]);
    assert(with_colons(seq![a]) == a);
    assert(with_colons(seq![a, b]) == a + seq![':'] + b);
    assert(with_colons(seq![a, b, c]) == a + seq![':'] + b + seq![':'] + c);
    assert(with_colons(ps) == a + seq![':'] + b + seq![':'] + c + seq![':'] + d);
}

/// Any other number of parts is refused.
pub proof fn law_specification_has_three_or_four_parts(ps: Seq<Seq<char>>, typ: Seq<char>)
    requires
        ps.len() > 0,
        forall|i: int| 0 <= i < ps.len() ==> is_part(#[trigger] ps[i]),
    ensures
        spec_parse_request(with_colons(ps), typ) is Some <==> ps.len() == 3 || ps.len() == 4,
{
    law_parts(ps);
}

/// A bracket without its partner is refused.
pub proof fn law_stray_bracket_refused(a: Seq<char>, b: Seq<char>, typ: Seq<char>)
    requires
        without_brackets(a),
        without_brackets(b),
    ensures
        spec_parse_request(a + seq!['['] + b, typ) is None,
        spec_parse_request(a + seq![']'] + b, typ) is None,
{
    lemma_depth(a + seq!['['], b);
    lemma_depth(a + seq![']'], b);
    lemma_depth(Seq::empty(), a);
    assert(Seq::empty() + a =~= a);
    assert((a + seq!['[']).drop_last() =~= a);
    assert((a + seq![']']).drop_last() =~= a);
}

proof fn lemma_depth(a: Seq<char>, x: Seq<char>)
    requires
        without_brackets(x),
    ensures
        bracket_depth(a + x) == bracket_depth(a),
    decreases x.len(),
{
    if x.len() == 0 {
        assert(a + x =~= a);
    } else {
        let y = x.drop_last();
        assert forall|i: int| 0 <= i < y.len() implies #[trigger] y[i] != '[' && y[i] != ']' by {
            assert(y[i] == x[i]);
        }
        lemma_depth(a, y);
        assert((a + x).drop_last() =~= a + y);
        assert((a + x).last() == x[x.len() - 1]);
    }
}

/// Whether a specification is for this side or the other one makes no
/// difference to how it is read.
pub proof fn law_type_does_not_matter(s: Seq<char>, t1: Seq<char>, t2: Seq<char>)
    ensures
        ({
            let a = spec_parse_request(s, t1);
            let b = spec_parse_request(s, t2);
            &&& a is Some == b is Some
            &&& a is Some ==> a->0.listen == b->0.listen && a->0.target == b->0.target && a->0.typ
                == t1 && b->0.typ == t2
        }),
{
}

/// What is left of an address from a peer: the printable characters, all of
/// them and in their order.
pub proof fn law_printable_kept(a: Seq<char>, c: char, b: Seq<char>)
    ensures
        crate::tunnel_request::printable(a + b) == crate::tunnel_request::printable(a)
            + crate::tunnel_request::printable(b),
        crate::tunnel_request::printable(seq![c]) == (if 32 <= c as u32 && c as u32 <= 126 {
            seq![c]
        } else {
            Seq::empty()
        }),
    decreases b.len(),
{
    reveal_with_fuel(crate::tunnel_request::printable, 2);
    assert(seq![c].drop_last() =~= Seq::empty());
    assert(Seq::<char>::empty().push(c) =~= seq![c]);
    if b.len() == 0 {
        assert(a + b =~= a);
        assert(crate::tunnel_request::printable(a) + b =~= crate::tunnel_request::printable(a));
    } else {
        law_printable_kept(a, c, b.drop_last());
        assert((a + b).drop_last() =~= a + b.drop_last());
        assert((a + b).last() == b.last());
        assert(crate::tunnel_request::printable(a + b) =~= crate::tunnel_request::printable(a)
            + crate::tunnel_request::printable(b));
    }
}

} // verus!
