//! Who listens and who connects for a tunnel, and whom its user lets in.
use vstd::prelude::*;

use crate::net::IpAddr;
use crate::request_laws::{address, is_plain_part, without_brackets};
use crate::tunnel::{
    own_requests, requests_of, spec_dial, spec_listen, spec_notice, spec_parse_u16,
    spec_session_result, DialDecision, ListenDecision, Notice, TunnelError,
};
use crate::tunnel_allow::{bad_entries, entry_matches, entry_valid};
use crate::tunnel_config::spec_parse_line;
use crate::tunnel_request::{RequestErrorView, RequestView};

verus! {

/// A side listens for what it asks for itself with `L`, if the peer takes
/// requests, and for what the peer asks for with `R`, if it allows the address.
/// It refuses a peer an address that it does not allow, and leaves the rest to
/// the peer.
pub proof fn law_who_listens(q: RequestView, peer_accept: bool, allowed: bool)
    ensures
        q.typ == seq!['L'] ==> {
            &&& spec_listen(q, true, peer_accept, allowed) == if peer_accept {
                ListenDecision::Listen
            } else {
                ListenDecision::Skip
            }
            &&& spec_listen(q, false, peer_accept, allowed) == ListenDecision::Skip
        },
        q.typ == seq!['R'] ==> {
            &&& spec_listen(q, true, peer_accept, allowed) == ListenDecision::Skip
            &&& spec_listen(q, false, peer_accept, allowed) == if allowed {
                ListenDecision::Listen
            } else {
                ListenDecision::Refuse
            }
        },
{
    assert(seq!['L'][0] != seq!['R'][0]);
}

/// A side hears of its own requests that the peer takes none, and of the
/// peer's that it takes none itself. Else it hears where connections will be
/// made: to the target of its own `R`, and to that of an allowed `L` of the
/// peer.
pub proof fn law_what_is_told(q: RequestView, peer_accept: bool, accepts: bool, allowed: bool)
    ensures
        q.typ == seq!['L'] ==> {
            &&& spec_notice(q, true, peer_accept, accepts, allowed) == if peer_accept {
                Notice::Nothing
            } else {
                Notice::PeerRejectedLocal
            }
            &&& spec_notice(q, false, peer_accept, accepts, allowed) == if !accepts {
                Notice::IgnoringPeer
            } else if allowed {
                Notice::Forwarding
            } else {
                Notice::Nothing
            }
        },
        q.typ == seq!['R'] ==> {
            &&& spec_notice(q, true, peer_accept, accepts, allowed) == if peer_accept {
                Notice::Forwarding
            } else {
                Notice::PeerRejectedRemote
            }
            &&& spec_notice(q, false, peer_accept, accepts, allowed) == if accepts {
                Notice::Nothing
            } else {
                Notice::IgnoringPeer
            }
        },
{
    assert(seq!['L'][0] != seq!['R'][0]);
}

/// A stream of the peer leads to the target of the request that it names: of
/// one's own `R` without further ado, of an `L` of the peer as far as it is
/// allowed. A stream for any other request leads nowhere.
pub proof fn law_who_connects(
    before: Seq<RequestView>,
    mine: Seq<RequestView>,
    after: Seq<RequestView>,
    i: int,
)
    requires
        0 <= i <= 0xffff,
        before.len() == 0 || after.len() == 0,
    ensures
        ({
            let reqs = before + mine + after;
            let own = before.len() <= i < before.len() + mine.len();
            let d = spec_dial(reqs, i, before.len() as int, mine.len() as int);
            &&& i >= reqs.len() ==> d == DialDecision::InvalidIndex(i as usize)
            &&& i < reqs.len() && reqs[i].typ == seq!['R'] ==> d == if own {
                DialDecision::DialOwn(i as usize)
            } else {
                DialDecision::Ignore
            }
            &&& i < reqs.len() && reqs[i].typ == seq!['L'] ==> d == if own {
                DialDecision::Ignore
            } else {
                DialDecision::DialPeer(i as usize)
            }
        }),
{
    assert(seq!['L'][0] != seq!['R'][0]);
}

/// The number of a request stands in two bytes, the higher one first.
pub proof fn law_header_bytes(hi: u8, lo: u8)
    ensures
        crate::tunnel::spec_header(256 * hi + lo) == seq![hi, lo],
        crate::tunnel::header_index(hi, lo) == 256 * hi + lo,
{
    assert(crate::tunnel::spec_header(256 * hi + lo) =~= seq![hi, lo]);
}

proof fn lemma_requests(specs: Seq<String>, typ: Seq<char>, k: int)
    requires
        0 <= k <= specs.len(),
    ensures
        ({
            let r = requests_of(specs, typ, k);
            &&& r is Ok ==> {
                &&& (r->Ok_0).len() == k
                &&& forall|i: int|
                    0 <= i < k ==> crate::tunnel_request::spec_parse_request(
                        (#[trigger] specs[i])@,
                        typ,
                    ) == Some((r->Ok_0)[i])
            }
            &&& (forall|i: int|
                0 <= i < k ==> crate::tunnel_request::spec_parse_request(
                    (#[trigger] specs[i])@,
                    typ,
                ) is Some) ==> r is Ok
        }),
    decreases k,
{
    if k > 0 {
        lemma_requests(specs, typ, k - 1);
    }
}

/// A side asks for what its specifications say, in their order: those of type
/// `L` before those of type `R`. If any of them says nothing, it asks for
/// nothing at all.
pub proof fn law_all_specifications_count(local: Seq<String>, remote: Seq<String>)
    ensures
        ({
            let r = own_requests(local, remote);
            &&& r is Ok <==> {
                &&& forall|i: int|
                    0 <= i < local.len() ==> crate::tunnel_request::spec_parse_request(
                        (#[trigger] local[i])@,
                        "L"@,
                    ) is Some
                &&& forall|i: int|
                    0 <= i < remote.len() ==> crate::tunnel_request::spec_parse_request(
                        (#[trigger] remote[i])@,
                        "R"@,
                    ) is Some
            }
            &&& r is Ok ==> {
                &&& (r->Ok_0).len() == local.len() + remote.len()
                &&& forall|i: int|
                    0 <= i < local.len() ==> crate::tunnel_request::spec_parse_request(
                        (#[trigger] local[i])@,
                        "L"@,
                    ) == Some((r->Ok_0)[i])
                &&& forall|i: int|
                    0 <= i < remote.len() ==> crate::tunnel_request::spec_parse_request(
                        (#[trigger] remote[i])@,
                        "R"@,
                    ) == Some((r->Ok_0)[local.len() + i])
            }
        }),
{
    lemma_requests(local, "L"@, local.len() as int);
    lemma_requests(remote, "R"@, remote.len() as int);
}

/// Two letters that are the same but for their case, or the same characters.
pub open spec fn same_letter(a: char, b: char) -> bool {
    ||| a == b
    ||| 'A' <= a <= 'Z' && b as int == a as int + 32
    ||| 'A' <= b <= 'Z' && a as int == b as int + 32
}

/// The same host name in ASCII, in any case.
pub open spec fn same_host(a: Seq<char>, b: Seq<char>) -> bool {
    a.len() == b.len() && forall|i: int| 0 <= i < a.len() ==> same_letter(#[trigger] a[i], b[i])
}

proof fn lemma_lower(a: Seq<char>, b: Seq<char>)
    requires
        vstd::utf8::is_ascii_chars(a),
        vstd::utf8::is_ascii_chars(b),
    ensures
        crate::text::lower_text(a) == crate::text::lower_text(b) <==> same_host(a, b),
{
    let la = crate::text::lower_text(a);
    let lb = crate::text::lower_text(b);
    assert(la.len() == a.len() && lb.len() == b.len());
    assert forall|i: int| 0 <= i < a.len() implies la[i] == crate::text::ascii_lower(
        #[trigger] a[i],
    ) by {}
    assert forall|i: int| 0 <= i < b.len() implies lb[i] == crate::text::ascii_lower(
        #[trigger] b[i],
    ) by {}
    if la == lb {
        assert forall|i: int| 0 <= i < a.len() implies same_letter(#[trigger] a[i], b[i]) by {
            assert(la[i] == lb[i]);
        }
    }
    if same_host(a, b) {
        assert forall|i: int| 0 <= i < a.len() implies la[i] == lb[i] by {
            assert(same_letter(a[i], b[i]));
        }
        assert(la =~= lb);
    }
}

proof fn lemma_address_read(h: Seq<char>, p: Seq<char>)
    requires
        without_brackets(h),
        is_plain_part(p),
    ensures
        crate::tunnel_allow::host_port(address(h, p)) == Some((h, p)),
{
    reveal_strlit("[");
    reveal_strlit("]:");
    reveal_strlit(":");
    assert(address(h, p) =~= crate::resolver::spec_join_host_port(h, p));
    crate::resolver::law_host_port_round_trip(h, p);
}

/// An entry lets an address in just when the port is the same and the host is
/// the same in any case. An entry without a host lets in every host.
pub proof fn law_entry_lets_in(
    host: Seq<char>,
    port: Seq<char>,
    other_host: Seq<char>,
    other_port: Seq<char>,
)
    requires
        without_brackets(host),
        without_brackets(other_host),
        is_plain_part(port),
        is_plain_part(other_port),
        vstd::utf8::is_ascii_chars(host),
        vstd::utf8::is_ascii_chars(other_host),
    ensures
        entry_matches(address(host, port), address(other_host, other_port)) <==> port == other_port
            && (host.len() == 0 || same_host(host, other_host)),
{
    lemma_address_read(host, port);
    lemma_address_read(other_host, other_port);
    lemma_lower(host, other_host);
}

/// An entry has a port; without one, or without the colon before it, it is
/// wrong.
pub proof fn law_entry_has_a_port(host: Seq<char>, port: Seq<char>)
    requires
        without_brackets(host),
        is_plain_part(port),
    ensures
        entry_valid(address(host, port)) <==> port.len() > 0,
        !entry_valid(port),
{
    lemma_address_read(host, port);
    crate::seqs::lemma_last_index_found(port, ':');
}

proof fn lemma_bad_entries(entries: Seq<String>, flag: Seq<char>, k: int, i: int)
    requires
        0 <= i < k <= entries.len(),
        !entry_valid(entries[i]@),
    ensures
        bad_entries(entries, flag, k).contains(flag + crate::text::quoted_text(entries[i]@)),
    decreases k,
{
    let m = flag + crate::text::quoted_text(entries[i]@);
    let b = bad_entries(entries, flag, k);
    if i == k - 1 {
        assert(b[b.len() - 1] == m);
    } else {
        lemma_bad_entries(entries, flag, k - 1, i);
        let b0 = bad_entries(entries, flag, k - 1);
        let j = b0.index_of(m);
        assert(b[j] == m);
    }
}

proof fn lemma_no_bad_entries(entries: Seq<String>, flag: Seq<char>, k: int)
    requires
        0 <= k <= entries.len(),
        forall|i: int| 0 <= i < k ==> entry_valid((#[trigger] entries[i])@),
    ensures
        bad_entries(entries, flag, k).len() == 0,
    decreases k,
{
    if k > 0 {
        lemma_no_bad_entries(entries, flag, k - 1);
    }
}

/// Nothing is said of entries that all have a host and a port. Of each other
/// one it is said which it is and what flag gave it.
pub proof fn law_bad_entries_named(entries: Seq<String>, flag: Seq<char>)
    ensures
        bad_entries(entries, flag, entries.len() as int).len() == 0 <==> forall|i: int|
            0 <= i < entries.len() ==> entry_valid((#[trigger] entries[i])@),
        forall|i: int|
            0 <= i < entries.len() && !entry_valid((#[trigger] entries[i])@) ==> bad_entries(
                entries,
                flag,
                entries.len() as int,
            ).contains(flag + crate::text::quoted_text(entries[i]@)),
{
    let n = entries.len() as int;
    assert forall|i: int|
        0 <= i < entries.len() && !entry_valid((#[trigger] entries[i])@) implies bad_entries(
        entries,
        flag,
        n,
    ).contains(flag + crate::text::quoted_text(entries[i]@)) by {
        lemma_bad_entries(entries, flag, n, i);
    }
    if forall|i: int| 0 <= i < n ==> entry_valid((#[trigger] entries[i])@) {
        lemma_no_bad_entries(entries, flag, n);
    }
}

/// The port of a target is a number up to 65535 in decimal, without a minus
/// sign.
pub proof fn law_target_port(n: nat)
    ensures
        ({
            let d = crate::number::spec_decimal(n);
            let p = if n <= 65535 {
                Some(n as u16)
            } else {
                None::<u16>
            };
            &&& spec_parse_u16(d) == p
            &&& spec_parse_u16(seq!['+'] + d) == p
            &&& spec_parse_u16(seq!['-'] + d) is None
        }),
{
    crate::setting_laws::law_number_is_read(n);
    crate::number::law_decimal_round_trip(n);
    let d = crate::number::spec_decimal(n);
    assert(crate::number::is_digit(d[0]));
    assert((seq!['-'] + d)[0] == '-');
    assert((seq!['+'] + d)[0] == '+');
}

/// A session ends as its half that takes streams in, unless that half went
/// well or was only cancelled while the other failed.
pub proof fn law_session_ends(
    acceptor: Result<(), TunnelError>,
    listener: Result<(), TunnelError>,
    failure: TunnelError,
)
    ensures
        failure !is Canceled ==> spec_session_result(Err(failure), listener) == Err::<
            (),
            TunnelError,
        >(failure),
        failure !is Canceled && (acceptor is Ok || acceptor->Err_0 is Canceled)
            ==> spec_session_result(acceptor, Err(failure)) == Err::<(), TunnelError>(failure),
        spec_session_result(Ok(()), listener) == listener,
        listener is Ok && acceptor is Err ==> spec_session_result(acceptor, listener) == acceptor,
        acceptor is Err ==> spec_session_result(acceptor, listener) is Err,
{
}

/// Without spaces.
pub open spec fn one_word(s: Seq<char>) -> bool {
    forall|i: int| 0 <= i < s.len() ==> #[trigger] s[i] != ' '
}

proof fn lemma_word(w: Seq<char>, rest: Seq<char>)
    requires
        one_word(w),
    ensures
        crate::tunnel_config::split_word(w) == (w, None::<Seq<char>>),
        crate::tunnel_config::split_word(w + seq![' '] + rest) == (w, Some(rest)),
{
    crate::seqs::lemma_first_index(w, ' ', w.len() as int);
    let s = w + seq![' '] + rest;
    assert forall|j: int| 0 <= j < w.len() implies s[j] != ' ' by {
        assert(s[j] == w[j]);
    }
    assert(s[w.len() as int] == ' ');
    crate::seqs::lemma_first_index(s, ' ', w.len() as int);
    assert(s.take(w.len() as int) =~= w);
    assert(s.skip(w.len() as int + 1) =~= rest);
}

/// A line of one word or two asks for nothing, and so does one of a type that
/// is neither `L` nor `R`. In any other, what follows the second space is the
/// target, with its spaces.
pub proof fn law_lines_of_requests(
    typ: Seq<char>,
    listen: Seq<char>,
    target: Seq<char>,
)
    requires
        one_word(typ),
        one_word(listen),
    ensures
        spec_parse_line(typ) == Err::<RequestView, RequestErrorView>(
            RequestErrorView::InvalidLine(typ),
        ),
        spec_parse_line(typ + seq![' '] + listen) == Err::<RequestView, RequestErrorView>(
            RequestErrorView::InvalidLine(typ + seq![' '] + listen),
        ),
        ({
            let line = typ + seq![' '] + (listen + seq![' '] + target);
            spec_parse_line(line) == if typ == seq!['L'] || typ == seq!['R'] {
                Ok::<RequestView, RequestErrorView>(
                    RequestView {
                        typ,
                        listen: crate::tunnel_request::printable(listen),
                        target: crate::tunnel_request::printable(target),
                    },
                )
            } else {
                Err(RequestErrorView::InvalidType(typ, line))
            }
        }),
{
    reveal_strlit("L");
    reveal_strlit("R");
    assert("L"@ =~= seq!['L']);
    assert("R"@ =~= seq!['R']);
    lemma_word(typ, listen);
    lemma_word(typ, listen + seq![' '] + target);
    lemma_word(listen, target);
}

/// The client's requests come first on both sides; a side's own begin where
/// the other's end, or at the front.
pub proof fn law_merged_order(mine: Seq<RequestView>, peer: Seq<RequestView>)
    ensures
        crate::tunnel_config::merged(mine, peer, false).0 == mine + peer,
        crate::tunnel_config::merged(mine, peer, false).1 == 0,
        crate::tunnel_config::merged(mine, peer, true).0 == peer + mine,
        crate::tunnel_config::merged(mine, peer, true).1 == peer.len(),
{
}

/// Addresses that are permitted come out in the order in which they were found,
/// each as often as it was, and no other does.
pub proof fn law_permitted_in_order(
    rules: Seq<crate::tunnel_allow::RuleView>,
    a: Seq<IpAddr>,
    b: Seq<IpAddr>,
    ip: IpAddr,
    port: Seq<char>,
)
    ensures
        crate::tunnel_allow::permitted(rules, a + b, port) == crate::tunnel_allow::permitted(
            rules,
            a,
            port,
        ) + crate::tunnel_allow::permitted(rules, b, port),
        crate::tunnel_allow::permitted(rules, seq![ip], port) == if exists|i: int|
            0 <= i < rules.len() && (#[trigger] rules[i]).0 == port && (rules[i].1 is None
                || rules[i].1 == Some(ip)) {
            seq![ip]
        } else {
            Seq::empty()
        },
    decreases b.len(),
{
    let none = Seq::<IpAddr>::empty();
    assert(seq![ip].drop_last() =~= none);
    assert(crate::tunnel_allow::permitted(rules, none, port) =~= none);
    assert(none.push(ip) =~= seq![ip]);
    if exists|i: int|
        0 <= i < rules.len() && (#[trigger] rules[i]).0 == port && (rules[i].1 is None
            || rules[i].1 == Some(ip)) {
        let i = choose|i: int|
            0 <= i < rules.len() && (#[trigger] rules[i]).0 == port && (rules[i].1 is None
                || rules[i].1 == Some(ip));
        assert(crate::tunnel_allow::rule_permits(rules[i], ip, port));
    }
    if b.len() == 0 {
        assert(a + b =~= a);
        assert(crate::tunnel_allow::permitted(rules, a, port)
            + crate::tunnel_allow::permitted(rules, b, port)
            =~= crate::tunnel_allow::permitted(rules, a, port));
    } else {
        law_permitted_in_order(rules, a, b.drop_last(), ip, port);
        assert((a + b).drop_last() =~= a + b.drop_last());
        assert((a + b).last() == b.last());
        assert(crate::tunnel_allow::permitted(rules, a + b, port)
            =~= crate::tunnel_allow::permitted(rules, a, port)
            + crate::tunnel_allow::permitted(rules, b, port));
    }
}

/// One entry that matches an address is enough, wherever it stands.
pub proof fn law_one_entry_is_enough(entries: Seq<String>, addr: Seq<char>, i: int)
    requires
        0 <= i < entries.len(),
    ensures
        entry_matches(entries[i]@, addr) ==> crate::tunnel_allow::spec_allow_match(entries, addr),
        (forall|j: int| 0 <= j < entries.len() ==> !entry_matches((#[trigger] entries[j])@, addr))
            ==> !crate::tunnel_allow::spec_allow_match(entries, addr),
{
}

} // verus!
