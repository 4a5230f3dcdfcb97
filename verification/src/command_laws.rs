//! What the commands of the program take from their user, and what they tell
//! the user's peer.
use vstd::prelude::*;

use crate::command::{
    config_fault, distinct, endpoint_fault, first_fault, listens, spec_code_or_fresh,
    spec_peer_command, spec_resolve_code, spec_resolve_relay, targets, tunnel_fault,
};
use crate::options::spec_fault;
use crate::options::OptionsView;
use crate::plan::{spec_command, spec_tunnel_hint, Command};
use crate::request_laws::{address, is_plain_part, without_brackets};
use crate::tunnel_allow::entry_valid;
use crate::tunnel_request::spec_parse_request;

verus! {

/// A code of 8 to 256 bytes.
pub open spec fn is_code(s: Seq<char>) -> bool {
    s.len() > 0 && 8 <= vstd::utf8::encode_utf8(s).len() <= 256
}

/// A code on the command line counts, whatever the environment holds; without
/// one the code in the environment does. One that is too short or too long is
/// refused. A fresh code is made just when none was given.
pub proof fn law_code_given(
    flag: Seq<char>,
    env: Option<Seq<char>>,
    code: Seq<char>,
    fresh: Result<Seq<char>, Seq<char>>,
)
    requires
        code.len() > 0,
        flag == code || (flag.len() == 0 && env == Some(code)),
    ensures
        is_code(code) ==> spec_resolve_code(flag, env) == Ok::<Seq<char>, Seq<char>>(code),
        is_code(code) ==> spec_code_or_fresh(flag, env, fresh) == Ok::<
            (Seq<char>, bool),
            Seq<char>,
        >((code, false)),
        !is_code(code) ==> spec_resolve_code(flag, env) is Err && spec_code_or_fresh(
            flag,
            env,
            fresh,
        ) is Err,
{
}

/// Where no code was given, or an empty one, the fresh one is taken; that it
/// could not be made is the failure.
pub proof fn law_no_code_given(env: Option<Seq<char>>, fresh: Result<Seq<char>, Seq<char>>)
    requires
        env is Some ==> env->0.len() == 0,
    ensures
        spec_resolve_code(Seq::empty(), env) is Ok,
        (spec_resolve_code(Seq::empty(), env)->Ok_0).len() == 0,
        fresh is Ok ==> spec_code_or_fresh(Seq::empty(), env, fresh) == Ok::<
            (Seq<char>, bool),
            Seq<char>,
        >((fresh->Ok_0, true)),
        fresh is Err ==> spec_code_or_fresh(Seq::empty(), env, fresh) is Err,
{
}

/// Options are good just when they have a code of the right length and a
/// relay.
pub proof fn law_good_options(o: OptionsView)
    ensures
        spec_fault(o) is None <==> is_code(o.code) && o.relay.len() > 0,
{
}

/// The relay that was given is used; without one the public relay is.
pub proof fn law_relay_given(addr: Seq<char>)
    ensures
        addr.len() > 0 ==> spec_resolve_relay(addr) == addr && crate::plan::spec_listen(addr)
            == addr,
        addr.len() == 0 ==> spec_resolve_relay(addr) == "relay.qvole.dev:9009"@
            && crate::plan::spec_listen(addr) == ":9009"@,
{
}

/// The command is the one that the first argument names, and no other
/// argument counts.
pub proof fn law_commands(args: Seq<Seq<char>>)
    ensures
        args.len() > 0 ==> {
            let w = args[0];
            let c = spec_command(args);
            &&& c == Command::Relay <==> w == seq!['r', 'e', 'l', 'a', 'y']
            &&& c == Command::Exec <==> w == seq!['e', 'x', 'e', 'c']
            &&& c == Command::Tunnel <==> w == seq!['t', 'u', 'n', 'n', 'e', 'l']
            &&& c == Command::Pipe <==> w == seq!['p', 'i', 'p', 'e']
            &&& c == Command::Version <==> w == seq!['-', 'v'] || w == "--version"@
        },
        args.len() == 0 ==> spec_command(args) == Command::Help,
{
    reveal_strlit("relay");
    reveal_strlit("exec");
    reveal_strlit("tunnel");
    reveal_strlit("pipe");
    reveal_strlit("-v");
    reveal_strlit("--version");
    assert("relay"@ =~= seq!['r', 'e', 'l', 'a', 'y']);
    assert("exec"@ =~= seq!['e', 'x', 'e', 'c']);
    assert("tunnel"@ =~= seq!['t', 'u', 'n', 'n', 'e', 'l']);
    assert("pipe"@ =~= seq!['p', 'i', 'p', 'e']);
    assert("-v"@ =~= seq!['-', 'v']);
    assert("relay"@[0] == 'r' && "exec"@[0] == 'e' && "tunnel"@[0] == 't' && "pipe"@[0] == 'p');
    assert("-v"@[0] == '-' && "--version"@[0] == '-');
}

/// An end of a tunnel is a host, which may be empty, and a port from 1 to
/// 65535.
pub proof fn law_endpoint_port(host: Seq<char>, n: nat)
    requires
        without_brackets(host),
    ensures
        endpoint_fault(address(host, crate::number::spec_decimal(n))) is None <==> 1 <= n <= 65535,
{
    let d = crate::number::spec_decimal(n);
    crate::setting_laws::law_decimal_digits(n);
    crate::setting_laws::law_number_is_read(n);
    assert forall|i: int| 0 <= i < d.len() implies #[trigger] d[i] != '[' && d[i] != ']' && d[i]
        != ':' by {
        assert(crate::setting_laws::is_numeral(d[i]));
    }
    reveal_strlit("[");
    reveal_strlit("]:");
    reveal_strlit(":");
    assert(address(host, d) =~= crate::resolver::spec_join_host_port(host, d));
    crate::resolver::law_host_port_round_trip(host, d);
}

/// A tunnel is good just when it has the form of one and both its ends are.
pub proof fn law_good_tunnel(text: Seq<char>, typ: Seq<char>)
    ensures
        tunnel_fault(text, typ) is None <==> {
            &&& spec_parse_request(text, typ) is Some
            &&& endpoint_fault(spec_parse_request(text, typ)->0.listen) is None
            &&& endpoint_fault(spec_parse_request(text, typ)->0.target) is None
        },
{
}

proof fn lemma_first_fault(texts: Seq<Seq<char>>, typ: Seq<char>, k: int)
    requires
        0 <= k <= texts.len(),
        forall|i: int| 0 <= i < k ==> tunnel_fault(#[trigger] texts[i], typ) is None,
        k < texts.len() ==> tunnel_fault(texts[k], typ) is Some,
    ensures
        first_fault(texts, typ) == if k < texts.len() {
            tunnel_fault(texts[k], typ)
        } else {
            None
        },
    decreases k,
{
    if k > 0 {
        let t = texts.drop_first();
        assert(tunnel_fault(texts[0], typ) is None);
        assert forall|i: int| 0 <= i < k - 1 implies tunnel_fault(#[trigger] t[i], typ) is None by {
            assert(t[i] == texts[i + 1]);
        }
        lemma_first_fault(t, typ, k - 1);
    }
}

/// Of several tunnels the first that is not good is complained of; without
/// one, none is.
pub proof fn law_first_bad_tunnel(texts: Seq<Seq<char>>, typ: Seq<char>, k: int)
    requires
        0 <= k <= texts.len(),
        forall|i: int| 0 <= i < k ==> tunnel_fault(#[trigger] texts[i], typ) is None,
        k < texts.len() ==> tunnel_fault(texts[k], typ) is Some,
    ensures
        k < texts.len() ==> first_fault(texts, typ) == tunnel_fault(texts[k], typ),
        k == texts.len() ==> first_fault(texts, typ) is None,
{
    lemma_first_fault(texts, typ, k);
}

/// What is asked for and allowed is good just when there are at most 100
/// tunnels, each of them is good, and every entry has a host and a port.
pub proof fn law_good_configuration(
    local: Seq<Seq<char>>,
    remote: Seq<Seq<char>>,
    allow_listen: Seq<String>,
    allow_forward: Seq<String>,
)
    ensures
        config_fault(local, remote, allow_listen, allow_forward) is None <==> {
            &&& local.len() + remote.len() <= 100
            &&& forall|i: int| 0 <= i < local.len() ==> tunnel_fault(#[trigger] local[i], "L"@) is None
            &&& forall|i: int|
                0 <= i < remote.len() ==> tunnel_fault(#[trigger] remote[i], "R"@) is None
            &&& forall|i: int|
                0 <= i < allow_listen.len() ==> entry_valid((#[trigger] allow_listen[i])@)
            &&& forall|i: int|
                0 <= i < allow_forward.len() ==> entry_valid((#[trigger] allow_forward[i])@)
        },
{
    lemma_all_good(local, "L"@);
    lemma_all_good(remote, "R"@);
    crate::tunnel_laws::law_bad_entries_named(allow_listen, "-aL "@);
    crate::tunnel_laws::law_bad_entries_named(allow_forward, "-aF "@);
}

proof fn lemma_all_good(texts: Seq<Seq<char>>, typ: Seq<char>)
    ensures
        first_fault(texts, typ) is None <==> forall|i: int|
            0 <= i < texts.len() ==> tunnel_fault(#[trigger] texts[i], typ) is None,
    decreases texts.len(),
{
    if texts.len() > 0 {
        let t = texts.drop_first();
        lemma_all_good(t, typ);
        if first_fault(texts, typ) is None {
            assert forall|i: int| 0 <= i < texts.len() implies tunnel_fault(
                #[trigger] texts[i],
                typ,
            ) is None by {
                if i > 0 {
                    assert(t[i - 1] == texts[i]);
                }
            }
        } else if forall|i: int|
            0 <= i < texts.len() ==> tunnel_fault(#[trigger] texts[i], typ) is None {
            assert(tunnel_fault(texts[0], typ) is None);
            assert forall|i: int| 0 <= i < t.len() implies tunnel_fault(#[trigger] t[i], typ)
                is None by {
                assert(t[i] == texts[i + 1]);
            }
        }
    }
}

/// Leaving out what stands before already leaves every text once.
pub proof fn law_each_once(s: Seq<Seq<char>>)
    ensures
        forall|x: Seq<char>| #[trigger] distinct(s).contains(x) <==> s.contains(x),
        forall|i: int, j: int|
            0 <= i < j < distinct(s).len() ==> (#[trigger] distinct(s)[i]) != (
            #[trigger] distinct(s)[j]),
    decreases s.len(),
{
    if s.len() > 0 {
        let t = s.drop_last();
        let d = distinct(t);
        law_each_once(t);
        assert forall|x: Seq<char>| #[trigger] distinct(s).contains(x) <==> s.contains(x) by {
            if s.contains(x) {
                let k = s.index_of(x);
                if k < t.len() {
                    assert(t[k] == x);
                    assert(d.contains(x));
                    let j = d.index_of(x);
                    assert(distinct(s)[j] == x);
                } else if d.contains(x) {
                    let j = d.index_of(x);
                    assert(distinct(s)[j] == x);
                } else {
                    assert(distinct(s)[d.len() as int] == x);
                }
            }
            if distinct(s).contains(x) {
                let j = distinct(s).index_of(x);
                if j < d.len() {
                    assert(d[j] == x);
                    assert(d.contains(x));
                    assert(t.contains(x));
                    let k = t.index_of(x);
                    assert(s[k] == x);
                } else {
                    assert(s[s.len() - 1] == x);
                }
            }
        }
        assert forall|i: int, j: int| 0 <= i < j < distinct(s).len() implies (#[trigger] distinct(
            s,
        )[i]) != (#[trigger] distinct(s)[j]) by {
            if j == d.len() {
                assert(d[i] == distinct(s)[i]);
                assert(d.contains(d[i]));
            } else {
                assert(d[i] == distinct(s)[i] && d[j] == distinct(s)[j]);
            }
        }
    }
}

/// The command for a peer that one address is asked of names the code and this
/// address: behind `-aL` where the peer is to listen on it, behind `-aF` where
/// the peer is to connect to it.
pub proof fn law_peer_command(code: Seq<char>, text: Seq<char>)
    ensures
        spec_parse_request(text, "R"@) is Some ==> spec_peer_command(
            code,
            Seq::empty(),
            seq![text],
        ) == Some(
            "QVOLE_CODE="@ + code + " qvole tunnel"@ + " -aL "@ + spec_parse_request(
                text,
                "R"@,
            )->0.listen,
        ),
        spec_parse_request(text, "L"@) is Some ==> spec_peer_command(
            code,
            seq![text],
            Seq::empty(),
        ) == Some(
            "QVOLE_CODE="@ + code + " qvole tunnel"@ + " -aF "@ + spec_parse_request(
                text,
                "L"@,
            )->0.target,
        ),
        spec_peer_command(code, Seq::empty(), Seq::empty()) == Some(Seq::<char>::empty()),
{
    let none = Seq::<Seq<char>>::empty();
    assert(listens(none) =~= none);
    assert(targets(none) =~= none);
    assert(distinct(none) =~= none);
    let r = spec_parse_request(text, "R"@)->0.listen;
    let l = spec_parse_request(text, "L"@)->0.target;
    lemma_one(r);
    lemma_one(l);
    assert(listens(seq![text]) =~= seq![r]);
    assert(targets(seq![text]) =~= seq![l]);
    let head = "QVOLE_CODE="@ + code + " qvole tunnel"@;
    assert(crate::command::flagged(" -aL "@, none) =~= Seq::empty());
    assert(crate::command::flagged(" -aF "@, none) =~= Seq::empty());
    lemma_flagged(" -aL "@, r);
    lemma_flagged(" -aF "@, l);
    assert(head + (" -aL "@ + r) + Seq::empty() =~= head + " -aL "@ + r);
    assert(head + Seq::empty() + (" -aF "@ + l) =~= head + " -aF "@ + l);
}

proof fn lemma_one(x: Seq<char>)
    ensures
        distinct(seq![x]) == seq![x],
{
    let s = seq![x];
    assert(s.drop_last() =~= Seq::empty());
    assert(distinct(s.drop_last()) =~= Seq::empty());
    assert(distinct(s) =~= s);
}

proof fn lemma_flagged(flag: Seq<char>, x: Seq<char>)
    ensures
        crate::command::flagged(flag, seq![x]) == flag + x,
{
    let s = seq![x];
    assert(s.drop_last() =~= Seq::empty());
    assert(crate::command::flagged(flag, s.drop_last()) =~= Seq::empty());
    assert(crate::command::flagged(flag, s) =~= flag + x);
}

/// A command for the peer is printed just when the code is a fresh one, which
/// the peer cannot know, and it holds that code.
pub proof fn law_fresh_code_is_shown(
    code: Seq<char>,
    fresh: bool,
    local: Seq<Seq<char>>,
    remote: Seq<Seq<char>>,
)
    requires
        spec_peer_command(code, local, remote) is Some,
    ensures
        spec_tunnel_hint((code, fresh), local, remote) is Some <==> fresh,
        crate::plan::spec_simple_hint((code, fresh), " qvole pipe"@) is Some <==> fresh,
        fresh ==> crate::plan::spec_simple_hint((code, fresh), " qvole pipe"@) == Some(
            "# peer command\n"@ + ("QVOLE_CODE="@ + code + " qvole pipe"@) + "\n"@,
        ),
        fresh && spec_peer_command(code, local, remote)->0.len() > 0 ==> spec_tunnel_hint(
            (code, fresh),
            local,
            remote,
        ) == Some("# peer command\n"@ + spec_peer_command(code, local, remote)->0 + "\n"@),
        fresh && spec_peer_command(code, local, remote)->0.len() == 0 ==> spec_tunnel_hint(
            (code, fresh),
            local,
            remote,
        ) == Some("# peer command\n"@ + ("QVOLE_CODE="@ + code + " qvole tunnel"@) + "\n"@),
{
}

/// Leaving out what stands before already keeps the rest in its order: what
/// comes later changes nothing of what came before it.
pub proof fn law_first_ones_stay(a: Seq<Seq<char>>, b: Seq<Seq<char>>)
    ensures
        distinct(a).len() <= distinct(a + b).len(),
        distinct(a + b).take(distinct(a).len() as int) == distinct(a),
    decreases b.len(),
{
    let n = distinct(a).len() as int;
    if b.len() == 0 {
        assert(a + b =~= a);
        assert(distinct(a).take(n) =~= distinct(a));
    } else {
        law_first_ones_stay(a, b.drop_last());
        assert((a + b).drop_last() =~= a + b.drop_last());
        assert(distinct(a + b).take(n) =~= distinct(a + b.drop_last()).take(n));
    }
}

/// Every address in a command for the peer has its flag, and they stand in
/// their order.
pub proof fn law_flags_in_order(flag: Seq<char>, a: Seq<Seq<char>>, b: Seq<Seq<char>>)
    ensures
        crate::command::flagged(flag, a + b) == crate::command::flagged(flag, a)
            + crate::command::flagged(flag, b),
    decreases b.len(),
{
    if b.len() == 0 {
        assert(a + b =~= a);
        assert(crate::command::flagged(flag, a) + crate::command::flagged(flag, b)
            =~= crate::command::flagged(flag, a));
    } else {
        law_flags_in_order(flag, a, b.drop_last());
        assert((a + b).drop_last() =~= a + b.drop_last());
        assert((a + b).last() == b.last());
        assert(crate::command::flagged(flag, a + b) =~= crate::command::flagged(flag, a)
            + crate::command::flagged(flag, b));
    }
}

/// Several complaints are told one after the other, with a comma and a blank
/// between them.
pub proof fn law_complaints_joined(a: Seq<Seq<char>>, b: Seq<Seq<char>>, x: Seq<char>)
    requires
        a.len() > 0,
        b.len() > 0,
    ensures
        crate::tunnel_allow::comma_joined(seq![x]) == x,
        crate::tunnel_allow::comma_joined(a + b) == crate::tunnel_allow::comma_joined(a) + seq![
            ',',
            ' ',
        ] + crate::tunnel_allow::comma_joined(b),
    decreases b.len(),
{
    reveal_strlit(", ");
    assert(", "@ =~= seq![',', ' ']);
    assert((a + b).drop_last() =~= a + b.drop_last());
    assert((a + b).last() == b.last());
    if b.len() == 1 {
        assert(a + b.drop_last() =~= a);
        assert(crate::tunnel_allow::comma_joined(b) == b[0]);
    } else {
        law_complaints_joined(a, b.drop_last(), x);
        assert(crate::tunnel_allow::comma_joined(a + b) =~= crate::tunnel_allow::comma_joined(a)
            + seq![',', ' '] + crate::tunnel_allow::comma_joined(b));
    }
}

} // verus!
