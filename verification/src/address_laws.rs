//! What addresses, ports and names of services are read as.
use vstd::prelude::*;

use crate::net::{canonical_ip, IpAddr};
use crate::resolver::{
    dns_reason, first_port, line_port, spec_lookup_port, spec_parse_port, spec_services_lookup,
    spec_split_addr, AddrFault,
};
use crate::request_laws::{is_plain_part, without_brackets};
use crate::setting_laws::is_numeral;
use crate::text::{spec_is_whitespace, split_on, words};

verus! {

/// An address without a colon has no port.
pub proof fn law_port_needed(s: Seq<char>)
    requires
        forall|i: int| 0 <= i < s.len() ==> #[trigger] s[i] != ':',
    ensures
        spec_split_addr(s) == Err::<(Seq<char>, Seq<char>), AddrFault>(AddrFault::MissingPort),
{
    crate::seqs::lemma_last_index_found(s, ':');
}

/// A host with a colon in it needs brackets.
pub proof fn law_brackets_needed(a: Seq<char>, b: Seq<char>, port: Seq<char>)
    requires
        without_brackets(a),
        without_brackets(b),
        is_plain_part(port),
    ensures
        spec_split_addr(a + seq![':'] + b + seq![':'] + port) == Err::<
            (Seq<char>, Seq<char>),
            AddrFault,
        >(AddrFault::TooManyColons),
{
    let s = a + seq![':'] + b + seq![':'] + port;
    let n = a.len() as int;
    let c = (a.len() + 1 + b.len()) as int;
    crate::seqs::lemma_last_index_found(s, ':');
    assert(s[c] == ':');
    assert(s[n] == ':');
    assert forall|j: int| c < j < s.len() implies s[j] != ':' by {
        assert(s[j] == port[j - c - 1]);
    }
    assert(crate::seqs::last_index(s, ':') == c);
    if n > 0 {
        assert(s[0] == a[0]);
    }
    assert(s.take(c)[n] == ':');
}

/// A bracket that is opened is closed, right before the colon of the port.
pub proof fn law_bracket_is_closed(a: Seq<char>, port: Seq<char>)
    requires
        without_brackets(a),
        is_plain_part(port),
    ensures
        spec_split_addr(seq!['['] + a + seq![':'] + port) == Err::<
            (Seq<char>, Seq<char>),
            AddrFault,
        >(AddrFault::MissingBracket),
        a.contains(':') ==> spec_split_addr(seq!['['] + a + seq![']']) == Err::<
            (Seq<char>, Seq<char>),
            AddrFault,
        >(AddrFault::MissingPort),
{
    let s = seq!['['] + a + seq![':'] + port;
    let n = a.len() as int;
    crate::seqs::lemma_last_index_found(s, ':');
    assert(s[n + 1] == ':');
    assert forall|j: int| 0 <= j < s.len() implies s[j] != ']' by {
        if 0 < j <= n {
            assert(s[j] == a[j - 1]);
        } else if j > n + 1 {
            assert(s[j] == port[j - n - 2]);
        }
    }
    crate::seqs::lemma_first_index(s, ']', s.len() as int);
    let t = seq!['['] + a + seq![']'];
    crate::seqs::lemma_last_index_found(t, ':');
    assert forall|j: int| 0 <= j < n + 1 implies t[j] != ']' by {
        if j > 0 {
            assert(t[j] == a[j - 1]);
        }
    }
    assert(t[n + 1] == ']');
    crate::seqs::lemma_first_index(t, ']', n + 1);
    if a.contains(':') {
        let k = a.index_of(':');
        assert(t[k + 1] == ':');
    }
}

/// A port in decimal is that number, if it is one up to 65535, and no services
/// file is asked. No port at all is port 0.
pub proof fn law_port_number(n: nat, services: Option<Seq<char>>)
    ensures
        n <= 65535 ==> spec_lookup_port(crate::number::spec_decimal(n), services) == Ok::<
            u16,
            Seq<char>,
        >(n as u16),
        n > 65535 ==> spec_lookup_port(crate::number::spec_decimal(n), services) is Err,
        n > 0 ==> spec_lookup_port(seq!['-'] + crate::number::spec_decimal(n), services) is Err,
        spec_lookup_port(Seq::empty(), services) == Ok::<u16, Seq<char>>(0),
{
    let d = crate::number::spec_decimal(n);
    crate::number::law_decimal_round_trip(n);
    assert(crate::number::is_digit(d[0]));
    assert((seq!['-'] + d).drop_first() =~= d);
    assert(crate::number::digits_value(Seq::empty()) == 0);
}

/// Any other text is the name of a service, and has the port that the services
/// file gives it.
pub proof fn law_named_port(name: Seq<char>, i: int, services: Option<Seq<char>>)
    requires
        0 <= i < name.len(),
        !is_numeral(name[i]),
        i == 0 ==> name[0] != '+' && name[0] != '-',
    ensures
        services is None ==> spec_lookup_port(name, services) is Err,
        services is Some ==> match spec_services_lookup(services->0, name) {
            Some(p) => spec_lookup_port(name, services) == Ok::<u16, Seq<char>>(p),
            None => spec_lookup_port(name, services) is Err,
        },
{
    let (neg, d) = crate::number::unsigned_part(name);
    if d.len() == name.len() {
        assert(!crate::number::is_digit(d[i]));
    } else {
        assert(d[i - 1] == name[i]);
        assert(!crate::number::is_digit(d[i - 1]));
    }
    assert(spec_parse_port(name) is None);
}

/// A word: something, without white space.
pub open spec fn is_field(s: Seq<char>) -> bool {
    s.len() > 0 && forall|i: int| 0 <= i < s.len() ==> !spec_is_whitespace(#[trigger] s[i])
}

/// Words with a space between them.
pub open spec fn spaced(fs: Seq<Seq<char>>) -> Seq<char>
    decreases fs.len(),
{
    if fs.len() == 0 {
        Seq::empty()
    } else if fs.len() == 1 {
        fs[0]
    } else {
        spaced(fs.drop_last()) + seq![' '] + fs.last()
    }
}

proof fn lemma_one_more_word(a: Seq<char>, w: Seq<char>)
    requires
        is_field(w),
        a.len() == 0 || spec_is_whitespace(a.last()),
    ensures
        words(a + w) == words(a).push(w),
    decreases w.len(),
{
    let s = a + w;
    let t = s.drop_last();
    let v = w.drop_last();
    assert(t =~= a + v);
    assert(s.last() == w.last());
    assert(!spec_is_whitespace(w[w.len() - 1]));
    if w.len() == 1 {
        assert(t =~= a);
        assert(w =~= seq![s.last()]);
    } else {
        assert forall|i: int| 0 <= i < v.len() implies !spec_is_whitespace(#[trigger] v[i]) by {
            assert(v[i] == w[i]);
        }
        lemma_one_more_word(a, v);
        assert(t.last() == v[v.len() - 1]);
        assert(!spec_is_whitespace(v[v.len() - 1]));
        let p = words(t);
        assert(p == words(a).push(v));
        assert(v.push(s.last()) =~= w);
        assert(words(s) =~= words(a).push(w));
    }
}

/// A line comes apart into the words that it was put together from.
pub proof fn law_words(fs: Seq<Seq<char>>)
    requires
        forall|i: int| 0 <= i < fs.len() ==> is_field(#[trigger] fs[i]),
    ensures
        words(spaced(fs)) == fs,
    decreases fs.len(),
{
    if fs.len() == 0 {
        assert(words(spaced(fs)) =~= fs);
    } else if fs.len() == 1 {
        let none = Seq::<char>::empty();
        assert(is_field(fs[0]));
        lemma_one_more_word(none, fs[0]);
        assert(none + fs[0] =~= fs[0]);
        assert(words(none).push(fs[0]) =~= fs);
    } else {
        let t = fs.drop_last();
        assert forall|i: int| 0 <= i < t.len() implies is_field(#[trigger] t[i]) by {
            assert(t[i] == fs[i]);
        }
        law_words(t);
        let a = spaced(t);
        let b = a + seq![' '];
        assert(b.drop_last() =~= a);
        assert(b.last() == ' ');
        assert(spec_is_whitespace(' '));
        assert(words(b) == words(a));
        assert(is_field(fs[fs.len() - 1]));
        lemma_one_more_word(b, fs.last());
        assert(t.push(fs.last()) =~= fs);
    }
}

/// No number sign.
pub open spec fn without_comment(s: Seq<char>) -> bool {
    forall|i: int| 0 <= i < s.len() ==> #[trigger] s[i] != '#'
}

proof fn lemma_comment(line: Seq<char>, comment: Seq<char>)
    requires
        without_comment(line),
    ensures
        line.take(crate::seqs::first_index(line, '#')) == line,
        (line + seq!['#'] + comment).take(
            crate::seqs::first_index(line + seq!['#'] + comment, '#'),
        ) == line,
{
    let n = line.len() as int;
    crate::seqs::lemma_first_index(line, '#', n);
    assert(line.take(n) =~= line);
    let s = line + seq!['#'] + comment;
    assert forall|j: int| 0 <= j < n implies s[j] != '#' by {
        assert(s[j] == line[j]);
    }
    assert(s[n] == '#');
    crate::seqs::lemma_first_index(s, '#', n);
    assert(s.take(n) =~= line);
}

/// What follows a number sign in a services file does not count.
pub proof fn law_comments_ignored(line: Seq<char>, comment: Seq<char>, service: Seq<char>)
    requires
        without_comment(line),
    ensures
        line_port(line + seq!['#'] + comment, service) == line_port(line, service),
{
    lemma_comment(line, comment);
}

/// A line of a services file gives its port, under the protocol `udp`, to its
/// first word and to those behind the second, and to no other name. Under
/// another protocol it gives it to none.
pub proof fn law_services_line(
    name: Seq<char>,
    port: nat,
    protocol: Seq<char>,
    aliases: Seq<Seq<char>>,
    service: Seq<char>,
)
    requires
        port <= 65535,
        is_field(name),
        is_field(crate::number::spec_decimal(port) + seq!['/'] + protocol),
        forall|i: int| 0 <= i < aliases.len() ==> is_field(#[trigger] aliases[i]),
        without_comment(
            spaced(
                seq![name, crate::number::spec_decimal(port) + seq!['/'] + protocol] + aliases,
            ),
        ),
    ensures
        line_port(
            spaced(seq![name, crate::number::spec_decimal(port) + seq!['/'] + protocol] + aliases),
            service,
        ) == if protocol == seq!['u', 'd', 'p'] && (service == name || aliases.contains(service)) {
            Some(port as u16)
        } else {
            None
        },
{
    let d = crate::number::spec_decimal(port);
    let second = d + seq!['/'] + protocol;
    let fs = seq![name, second] + aliases;
    let line = spaced(fs);
    assert forall|i: int| 0 <= i < fs.len() implies is_field(#[trigger] fs[i]) by {
        if i >= 2 {
            assert(fs[i] == aliases[i - 2]);
        }
    }
    law_words(fs);
    lemma_comment(line, Seq::empty());
    crate::setting_laws::law_decimal_digits(port);
    crate::number::law_decimal_round_trip(port);
    let n = d.len() as int;
    assert forall|j: int| 0 <= j < n implies second[j] != '/' by {
        assert(second[j] == d[j]);
        assert(is_numeral(d[j]));
    }
    assert(second[n] == '/');
    crate::seqs::lemma_first_index(second, '/', n);
    assert(second.take(n) =~= d);
    assert(second.skip(n + 1) =~= protocol);
    assert(crate::number::is_digit(d[0]));
    reveal_strlit("udp");
    assert("udp"@ =~= seq!['u', 'd', 'p']);
    assert(fs[0] == name && fs[1] == second);
    if aliases.contains(service) {
        let k = aliases.index_of(service);
        assert(fs[k + 2] == service);
    }
    if exists|i: int| 0 <= i < fs.len() && i != 1 && #[trigger] fs[i] == service {
        let i = choose|i: int| 0 <= i < fs.len() && i != 1 && #[trigger] fs[i] == service;
        if i >= 2 {
            assert(aliases[i - 2] == service);
        }
    }
}

proof fn lemma_first_port(lines: Seq<Seq<char>>, service: Seq<char>, k: int, n: int)
    requires
        0 <= k < n <= lines.len(),
        forall|i: int| 0 <= i < k ==> line_port(#[trigger] lines[i], service) is None,
        line_port(lines[k], service) is Some,
    ensures
        first_port(lines, service, n) == line_port(lines[k], service),
    decreases n,
{
    if k < n - 1 {
        lemma_first_port(lines, service, k, n - 1);
    } else {
        lemma_no_port(lines, service, k);
    }
}

proof fn lemma_no_port(lines: Seq<Seq<char>>, service: Seq<char>, k: int)
    requires
        0 <= k <= lines.len(),
        forall|i: int| 0 <= i < k ==> line_port(#[trigger] lines[i], service) is None,
    ensures
        first_port(lines, service, k) is None,
    decreases k,
{
    if k > 0 {
        lemma_no_port(lines, service, k - 1);
    }
}

/// The first line of a services file that gives a service a port counts.
pub proof fn law_first_line_counts(content: Seq<char>, service: Seq<char>, k: int)
    requires
        0 <= k <= split_on(content, '\n').len(),
        forall|i: int|
            0 <= i < k ==> line_port(#[trigger] split_on(content, '\n')[i], service) is None,
        k < split_on(content, '\n').len() ==> line_port(split_on(content, '\n')[k], service)
            is Some,
    ensures
        k < split_on(content, '\n').len() ==> spec_services_lookup(content, service) == line_port(
            split_on(content, '\n')[k],
            service,
        ),
        k == split_on(content, '\n').len() ==> spec_services_lookup(content, service) is None,
{
    let lines = split_on(content, '\n');
    if k < lines.len() {
        lemma_first_port(lines, service, k, lines.len() as int);
    } else {
        lemma_no_port(lines, service, k);
    }
}

/// `x` does not occur.
pub open spec fn lacks(s: Seq<char>, x: char) -> bool {
    forall|i: int| 0 <= i < s.len() ==> #[trigger] s[i] != x
}

proof fn lemma_one_piece(a: Seq<char>, b: Seq<char>, x: char)
    requires
        lacks(b, x),
    ensures
        ({
            let p = split_on(a, x);
            split_on(a + b, x) == p.update(p.len() - 1, p.last() + b)
        }),
    decreases b.len(),
{
    let p = split_on(a, x);
    crate::text::lemma_split_on_len(a, x);
    if b.len() == 0 {
        assert(a + b =~= a);
        assert(p.last() + b =~= p.last());
        assert(p =~= p.update(p.len() - 1, p.last() + b));
    } else {
        let c = b.drop_last();
        assert forall|i: int| 0 <= i < c.len() implies #[trigger] c[i] != x by {
            assert(c[i] == b[i]);
        }
        lemma_one_piece(a, c, x);
        let s = a + b;
        assert(s.drop_last() =~= a + c);
        assert(s.last() == b[b.len() - 1]);
        assert((p.last() + c).push(s.last()) =~= p.last() + b);
        assert(split_on(s, x) =~= p.update(p.len() - 1, p.last() + b));
    }
}

/// Text comes apart at a character: what stands before one and the piece
/// behind it are taken each for itself.
pub proof fn law_pieces(a: Seq<char>, b: Seq<char>, x: char)
    requires
        lacks(b, x),
    ensures
        split_on(b, x) == seq![b],
        split_on(a + seq![x] + b, x) == split_on(a, x).push(b),
{
    let none = Seq::<char>::empty();
    lemma_one_piece(none, b, x);
    assert(none + b =~= b);
    assert(split_on(b, x) =~= seq![b]);
    let m = a + seq![x];
    assert(m.drop_last() =~= a);
    assert(m.last() == x);
    assert(split_on(m, x) == split_on(a, x).push(Seq::empty()));
    lemma_one_piece(m, b, x);
    assert(split_on(a + seq![x] + b, x) =~= split_on(a, x).push(b));
}

/// A name that is not known and one that cannot be looked up now are told
/// apart, wherever the system's message says so.
pub proof fn law_lookup_failures(a: Seq<char>, b: Seq<char>)
    ensures
        dns_reason(a + "Name or service not known"@ + b) == "no such host"@,
        ({
            let m = a + "Temporary failure in name resolution"@ + b;
            crate::text::occurs_in(m, "Name or service not known"@) || dns_reason(m)
                == "server misbehaving"@
        }),
{
    let p = "Name or service not known"@;
    let q = "Temporary failure in name resolution"@;
    let s = a + p + b;
    let t = a + q + b;
    let n = a.len() as int;
    assert(s.subrange(n, n + p.len()) =~= p);
    assert(crate::text::occurs_at(s, p, n));
    assert(t.subrange(n, n + q.len()) =~= q);
    assert(crate::text::occurs_at(t, q, n));
}

/// An IPv4 address in IPv6 form is that IPv4 address; every other address is
/// itself.
pub proof fn law_mapped_addresses(v4: u32, v6: u128)
    ensures
        canonical_ip(IpAddr::V4(v4)) == IpAddr::V4(v4),
        v6 == 0xffff_0000_0000 + v4 ==> canonical_ip(IpAddr::V6(v6)) == IpAddr::V4(v4),
        v6 / 0x1_0000_0000 != 0xffff ==> canonical_ip(IpAddr::V6(v6)) == IpAddr::V6(v6),
{
}

/// In ASCII, white space is the blank and the five control characters from the
/// tabulator to the carriage return.
pub proof fn law_white_space(c: char)
    requires
        (c as int) < 128,
    ensures
        spec_is_whitespace(c) <==> c == ' ' || c == '\t' || c == '\n' || c as int == 11 || c as int
            == 12 || c == '\r',
{
}

/// A colon and a blank stand at `i`.
pub open spec fn mark_at(s: Seq<char>, i: int) -> bool {
    s[i] == ':' && s[i + 1] == ' '
}

proof fn lemma_last_mark(a: Seq<char>, b: Seq<char>, from: int)
    requires
        forall|i: int| 0 <= i < b.len() - 1 ==> !(#[trigger] mark_at(b, i)),
        a.len() <= from <= a.len() + 2 + b.len(),
    ensures
        crate::text::last_occurrence(a + seq![':', ' '] + b, seq![':', ' '], from) == a.len(),
    decreases from,
{
    let p = seq![':', ' '];
    let s = a + p + b;
    let n = a.len() as int;
    if from == n {
        assert(s.subrange(n, n + 2) =~= p);
        assert(crate::text::occurs_at(s, p, n));
    } else {
        if crate::text::occurs_at(s, p, from) {
            let t = s.subrange(from, from + 2);
            assert(t[0] == s[from] && t[1] == s[from + 1]);
            assert(p[0] == ':' && p[1] == ' ');
            if from == n + 1 {
                assert(s[from] == ' ');
            } else {
                let i = from - n - 2;
                assert(b[i] == s[from] && b[i + 1] == s[from + 1]);
                assert(mark_at(b, i));
            }
        }
        lemma_last_mark(a, b, from - 1);
    }
}

/// Any other failure to look a name up is told by what stands behind the last
/// colon and blank of the system's message.
pub proof fn law_other_lookup_failures(a: Seq<char>, b: Seq<char>)
    requires
        forall|i: int| 0 <= i < b.len() - 1 ==> !(#[trigger] mark_at(b, i)),
        ({
            let m = a + seq![':', ' '] + b;
            &&& !crate::text::occurs_in(m, "Name or service not known"@)
            &&& !crate::text::occurs_in(m, "Temporary failure in name resolution"@)
        }),
    ensures
        dns_reason(a + seq![':', ' '] + b) == b,
{
    reveal_strlit(": ");
    assert(": "@ =~= seq![':', ' ']);
    let s = a + seq![':', ' '] + b;
    lemma_last_mark(a, b, s.len() as int);
    assert(s.skip(a.len() as int + 2) =~= b);
}

} // verus!
