//! What each command of the program checks, prints and runs with.
use vstd::prelude::*;

use crate::flags::same_text;
use crate::number::{decimal, parse_i64, spec_decimal, spec_parse_i64};
use crate::options::{byte_len, MAX_CODE_LEN, MIN_CODE_LEN};
use crate::resolver::{addr_error_text, spec_split_addr, split_host_port};
use crate::room::views_of;
use crate::text::{quoted_text, join2, quoted};
use crate::tunnel_allow::{bad_entries, comma_joined, entry_matches, TunnelAllow};
use crate::tunnel_request::{parse_tunnel_request, spec_format_error, spec_parse_request};

verus! {

/// How many tunnels may be asked for.
pub const MAX_TUNNEL_SPECS: usize = 100;

/// The code that was given: by flag, else by the environment; empty if it was
/// not. A code that is too short or too long is refused.
pub open spec fn spec_resolve_code(flag: Seq<char>, env: Option<Seq<char>>) -> Result<
    Seq<char>,
    Seq<char>,
> {
    let val = if flag.len() > 0 {
        flag
    } else {
        match env {
            Some(v) => v,
            None => Seq::empty(),
        }
    };
    if val.len() == 0 {
        Ok(val)
    } else if byte_len(val) < MIN_CODE_LEN {
        Err("code is too short ("@ + spec_decimal(byte_len(val)) + " chars); minimum is 8"@)
    } else if byte_len(val) > MAX_CODE_LEN {
        Err("code exceeds maximum length of 256 characters"@)
    } else {
        Ok(val)
    }
}

/// A text that may be missing, by its characters.
pub open spec fn opt_view(v: Option<&str>) -> Option<Seq<char>> {
    match v {
        Some(s) => Some(s@),
        None => None,
    }
}

/// A text or a reason, by their characters.
pub open spec fn result_view(r: Result<String, String>) -> Result<Seq<char>, Seq<char>> {
    match r {
        Ok(s) => Ok(s@),
        Err(m) => Err(m@),
    }
}

/// The code given by the flag or the environment.
pub fn resolve_code_from(flag_val: &str, env_val: Option<&str>) -> (r: Result<String, String>)
    ensures
        result_view(r) == spec_resolve_code(flag_val@, opt_view(env_val)),
{
    let val = if !flag_val.is_empty() {
        flag_val.to_owned()
    } else {
        match env_val {
            Some(v) => v.to_owned(),
            None => String::new(),
        }
    };
    if val.as_str().is_empty() {
        assert(val@ =~= Seq::empty());
        return Ok(val);
    }
    let n: usize = val.as_str().as_bytes().len();
    if n < MIN_CODE_LEN {
        let mut m = join2("code is too short (", decimal(n as u64).as_str());
        m.push_str(" chars); minimum is 8");
        return Err(m);
    }
    if n > MAX_CODE_LEN {
        return Err("code exceeds maximum length of 256 characters".to_owned());
    }
    Ok(val)
}

/// The code to use, and whether it is a fresh one: `fresh` is taken, or fails,
/// only when none was given.
pub open spec fn spec_code_or_fresh(
    flag: Seq<char>,
    env: Option<Seq<char>>,
    fresh: Result<Seq<char>, Seq<char>>,
) -> Result<(Seq<char>, bool), Seq<char>> {
    match spec_resolve_code(flag, env) {
        Err(m) => Err(m),
        Ok(code) => if code.len() > 0 {
            Ok((code, false))
        } else {
            match fresh {
                Ok(c) => Ok((c, true)),
                Err(m) => Err("generate code: "@ + m),
            }
        },
    }
}

/// The code given, or the fresh one.
pub fn resolve_or_generate_code_from(
    flag_val: &str,
    env_val: Option<&str>,
    fresh: Result<String, String>,
) -> (r: Result<(String, bool), String>)
    ensures
        match spec_code_or_fresh(flag_val@, opt_view(env_val), result_view(fresh)) {
            Ok(c) => r is Ok && r->Ok_0.0@ == c.0 && r->Ok_0.1 == c.1,
            Err(m) => r is Err && r->Err_0@ == m,
        },
{
    match resolve_code_from(flag_val, env_val) {
        Err(m) => Err(m),
        Ok(code) => if !code.as_str().is_empty() {
            Ok((code, false))
        } else {
            match fresh {
                Ok(c) => Ok((c, true)),
                Err(m) => Err(join2("generate code: ", m.as_str())),
            }
        },
    }
}

/// The relay to use: the one given, or the public one.
pub open spec fn spec_resolve_relay(addr: Seq<char>) -> Seq<char> {
    if addr.len() == 0 {
        crate::cli::DEFAULT_RELAY_ADDR@
    } else {
        addr
    }
}

pub fn resolve_relay(relay_addr: &str) -> (s: String)
    ensures
        s@ == spec_resolve_relay(relay_addr@),
{
    if relay_addr.is_empty() {
        crate::cli::DEFAULT_RELAY_ADDR.to_owned()
    } else {
        relay_addr.to_owned()
    }
}

/// A port that can be listened on or connected to.
pub open spec fn port_ok(p: Seq<char>) -> bool {
    match spec_parse_i64(p) {
        Some(n) => 1 <= n <= 65535,
        None => false,
    }
}

/// What is wrong with one end of a tunnel.
pub open spec fn endpoint_fault(addr: Seq<char>) -> Option<Seq<char>> {
    match spec_split_addr(addr) {
        Err(e) => Some(addr_error_text(addr, e.spec_why())),
        Ok(hp) => if port_ok(hp.1) {
            None
        } else {
            Some("invalid port "@ + quoted_text(hp.1))
        },
    }
}

/// What is wrong with a tunnel: its form, or one of its ends.
pub open spec fn tunnel_fault(text: Seq<char>, typ: Seq<char>) -> Option<Seq<char>> {
    let head = "invalid -"@ + typ + " spec "@ + quoted_text(text) + ": "@;
    match spec_parse_request(text, typ) {
        None => Some(head + spec_format_error()),
        Some(q) => match endpoint_fault(q.listen) {
            Some(m) => Some(head + m),
            None => match endpoint_fault(q.target) {
                Some(m) => Some(head + m),
                None => None,
            },
        },
    }
}

fn check_endpoint(addr: &str) -> (r: Result<(), String>)
    ensures
        match endpoint_fault(addr@) {
            None => r is Ok,
            Some(m) => r is Err && r->Err_0@ == m,
        },
{
    match split_host_port(addr) {
        Err(m) => Err(m),
        Ok(hp) => {
            match parse_i64(hp.1.as_str()) {
                Some(n) => if 1 <= n && n <= 65535 {
                    return Ok(());
                },
                None => {},
            }
            Err(join2("invalid port ", quoted(hp.1.as_str()).as_str()))
        },
    }
}

fn tunnel_error(text: &str, typ: &str, why: &str) -> (s: String)
    ensures
        s@ == "invalid -"@ + typ@ + " spec "@ + quoted_text(text@) + ": "@ + why@,
{
    let mut s = join2("invalid -", typ);
    s.push_str(" spec ");
    s.push_str(quoted(text).as_str());
    s.push_str(": ");
    s.push_str(why);
    s
}

/// Checks the form and the ports of one tunnel.
pub fn validate_tunnel_spec(request: &str, typ: &str) -> (r: Result<(), String>)
    ensures
        match tunnel_fault(request@, typ@) {
            None => r is Ok,
            Some(m) => r is Err && r->Err_0@ == m,
        },
{
    match parse_tunnel_request(request, typ) {
        Err(m) => Err(tunnel_error(request, typ, m.as_str())),
        Ok(q) => {
            match check_endpoint(q.listen_addr.as_str()) {
                Err(m) => {
                    return Err(tunnel_error(request, typ, m.as_str()));
                },
                Ok(()) => {},
            }
            match check_endpoint(q.target_addr.as_str()) {
                Err(m) => Err(tunnel_error(request, typ, m.as_str())),
                Ok(()) => Ok(()),
            }
        },
    }
}

/// What is wrong with the first tunnel that is not good.
pub open spec fn first_fault(texts: Seq<Seq<char>>, typ: Seq<char>) -> Option<Seq<char>>
    decreases texts.len(),
{
    if texts.len() == 0 {
        None
    } else {
        match tunnel_fault(texts[0], typ) {
            Some(m) => Some(m),
            None => first_fault(texts.drop_first(), typ),
        }
    }
}

fn check_tunnels(texts: &[String], typ: &str) -> (r: Result<(), String>)
    ensures
        match first_fault(views_of(texts@), typ@) {
            None => r is Ok,
            Some(m) => r is Err && r->Err_0@ == m,
        },
{
    let ghost v = views_of(texts@);
    let mut i: usize = 0;
    assert(v.skip(0) =~= v);
    while i < texts.len()
        invariant
            i <= texts@.len(),
            v == views_of(texts@),
            first_fault(v, typ@) == first_fault(v.skip(i as int), typ@),
        decreases texts@.len() - i,
    {
        assert(v.skip(i as int)[0] == texts@[i as int]@);
        assert(v.skip(i as int).drop_first() =~= v.skip(i + 1));
        match validate_tunnel_spec(texts[i].as_str(), typ) {
            Err(m) => {
                return Err(m);
            },
            Ok(()) => {},
        }
        i = i + 1;
    }
    Ok(())
}

/// What is wrong with the tunnels asked for and with what is allowed: too many
/// tunnels, a bad one, or entries that are no addresses.
pub open spec fn config_fault(
    local: Seq<Seq<char>>,
    remote: Seq<Seq<char>>,
    allow_listen: Seq<String>,
    allow_forward: Seq<String>,
) -> Option<Seq<char>> {
    let n = local.len() + remote.len();
    let bad = bad_entries(allow_listen, "-aL "@, allow_listen.len() as int) + bad_entries(
        allow_forward,
        "-aF "@,
        allow_forward.len() as int,
    );
    if n > MAX_TUNNEL_SPECS {
        Some("too many tunnel requests: "@ + spec_decimal(n) + " (max 100)"@)
    } else if first_fault(local, "L"@) is Some {
        first_fault(local, "L"@)
    } else if first_fault(remote, "R"@) is Some {
        first_fault(remote, "R"@)
    } else if bad.len() > 0 {
        Some("invalid tunnel allowlist entries (expected addr:port): "@ + comma_joined(bad))
    } else {
        None
    }
}

fn copy_texts(texts: &[String]) -> (r: Vec<String>)
    ensures
        views_of(r@) == views_of(texts@),
{
    let mut r: Vec<String> = Vec::new();
    let mut i: usize = 0;
    while i < texts.len()
        invariant
            i <= texts@.len(),
            r@.len() == i,
            forall|j: int| 0 <= j < i ==> (#[trigger] r@[j])@ == texts@[j]@,
        decreases texts@.len() - i,
    {
        r.push(texts[i].clone());
        i = i + 1;
    }
    assert(views_of(r@) =~= views_of(texts@));
    r
}

proof fn lemma_bad_by_view(a: Seq<String>, b: Seq<String>, flag: Seq<char>, k: int)
    requires
        views_of(a) == views_of(b),
        k <= a.len(),
    ensures
        bad_entries(a, flag, k) == bad_entries(b, flag, k),
    decreases k,
{
    if k > 0 {
        lemma_bad_by_view(a, b, flag, k - 1);
        assert(a.len() == views_of(a).len());
        assert(b.len() == views_of(b).len());
        assert(views_of(a)[k - 1] == a[k - 1]@);
        assert(views_of(b)[k - 1] == b[k - 1]@);
    }
}

/// Checks all tunnels and all entries of what is allowed, before anything is
/// printed.
pub fn validate_tunnel_config(
    local_tunnels: &[String],
    remote_tunnels: &[String],
    allow_listen: &[String],
    allow_forward: &[String],
    allow_all: bool,
) -> (r: Result<(), String>)
    requires
        local_tunnels@.len() + remote_tunnels@.len() <= usize::MAX,
    ensures
        match config_fault(
            views_of(local_tunnels@),
            views_of(remote_tunnels@),
            allow_listen@,
            allow_forward@,
        ) {
            None => r is Ok,
            Some(m) => r is Err && r->Err_0@ == m,
        },
{
    let n: usize = local_tunnels.len() + remote_tunnels.len();
    if n > MAX_TUNNEL_SPECS {
        let mut m = join2("too many tunnel requests: ", decimal(n as u64).as_str());
        m.push_str(" (max 100)");
        return Err(m);
    }
    match check_tunnels(local_tunnels, "L") {
        Err(m) => {
            return Err(m);
        },
        Ok(()) => {},
    }
    match check_tunnels(remote_tunnels, "R") {
        Err(m) => {
            return Err(m);
        },
        Ok(()) => {},
    }
    let allow = TunnelAllow {
        all: allow_all,
        listen: copy_texts(allow_listen),
        forward: copy_texts(allow_forward),
        forward_rules: Vec::new(),
    };
    proof {
        assert(views_of(allow.listen@).len() == views_of(allow_listen@).len());
        assert(views_of(allow.forward@).len() == views_of(allow_forward@).len());
        lemma_bad_by_view(allow.listen@, allow_listen@, "-aL "@, allow_listen@.len() as int);
        lemma_bad_by_view(allow.forward@, allow_forward@, "-aF "@, allow_forward@.len() as int);
    }
    allow.validate()
}

/// The texts without those that stand before them already.
pub open spec fn distinct(s: Seq<Seq<char>>) -> Seq<Seq<char>>
    decreases s.len(),
{
    if s.len() == 0 {
        s
    } else {
        let d = distinct(s.drop_last());
        if d.contains(s.last()) {
            d
        } else {
            d.push(s.last())
        }
    }
}

/// All texts are tunnels by their form.
pub open spec fn all_parse(texts: Seq<Seq<char>>, typ: Seq<char>) -> bool {
    forall|i: int| 0 <= i < texts.len() ==> spec_parse_request(#[trigger] texts[i], typ) is Some
}

/// The addresses that the peer is asked to listen on.
pub open spec fn listens(remote: Seq<Seq<char>>) -> Seq<Seq<char>> {
    Seq::new(remote.len(), |i: int| spec_parse_request(remote[i], "R"@)->0.listen)
}

/// The addresses that the peer is asked to connect to.
pub open spec fn targets(local: Seq<Seq<char>>) -> Seq<Seq<char>> {
    Seq::new(local.len(), |i: int| spec_parse_request(local[i], "L"@)->0.target)
}

/// Each text behind `flag`.
pub open spec fn flagged(flag: Seq<char>, s: Seq<Seq<char>>) -> Seq<char>
    decreases s.len(),
{
    if s.len() == 0 {
        Seq::empty()
    } else {
        flagged(flag, s.drop_last()) + flag + s.last()
    }
}

/// The command for the peer: with the code, and with a flag for each address
/// that this side asks for. It is empty when this side asks for nothing.
pub open spec fn spec_peer_command(
    code: Seq<char>,
    local: Seq<Seq<char>>,
    remote: Seq<Seq<char>>,
) -> Option<Seq<char>> {
    let al = distinct(listens(remote));
    let af = distinct(targets(local));
    if !all_parse(remote, "R"@) || !all_parse(local, "L"@) {
        None
    } else if al.len() == 0 && af.len() == 0 {
        Some(Seq::empty())
    } else {
        Some(
            "QVOLE_CODE="@ + code + " qvole tunnel"@ + flagged(" -aL "@, al) + flagged(
                " -aF "@,
                af,
            ),
        )
    }
}

fn add_distinct(v: &mut Vec<String>, s: String, Ghost(all): Ghost<Seq<Seq<char>>>)
    requires
        views_of(old(v)@) == distinct(all),
    ensures
        views_of(final(v)@) == distinct(all.push(s@)),
{
    let ghost d = distinct(all);
    assert(all.push(s@).drop_last() =~= all);
    let mut i: usize = 0;
    while i < v.len()
        invariant
            i <= v@.len(),
            v == old(v),
            views_of(v@) == d,
            d == distinct(all),
            all.push(s@).drop_last() == all,
            forall|j: int| 0 <= j < i ==> (#[trigger] d[j]) != s@,
        decreases v@.len() - i,
    {
        assert(d[i as int] == v@[i as int]@);
        if same_text(v[i].as_str(), s.as_str()) {
            assert(d.contains(s@));
            return;
        }
        i = i + 1;
    }
    let ghost x = s@;
    assert(!d.contains(x));
    v.push(s);
    assert(views_of(v@) =~= d.push(x));
}

fn push_flagged(s: &mut String, flag: &str, v: &Vec<String>)
    ensures
        final(s)@ == old(s)@ + flagged(flag@, views_of(v@)),
{
    let ghost w = views_of(v@);
    let mut i: usize = 0;
    assert(w.take(0) =~= Seq::empty());
    assert(s@ =~= old(s)@ + flagged(flag@, w.take(0)));
    while i < v.len()
        invariant
            i <= v@.len(),
            w == views_of(v@),
            s@ == old(s)@ + flagged(flag@, w.take(i as int)),
        decreases v@.len() - i,
    {
        s.push_str(flag);
        s.push_str(v[i].as_str());
        proof {
            let t = w.take(i + 1);
            assert(t.drop_last() =~= w.take(i as int));
            assert(t.last() == v@[i as int]@);
            assert(s@ =~= old(s)@ + (flagged(flag@, t.drop_last()) + flag@ + t.last()));
        }
        i = i + 1;
    }
    assert(w.take(i as int) =~= w);
}

/// The command that allows the peer what this side asks for.
pub fn tunnel_peer_command(
    code: &str,
    local_tunnels: &[String],
    remote_tunnels: &[String],
) -> (r: Result<String, String>)
    ensures
        match spec_peer_command(code@, views_of(local_tunnels@), views_of(remote_tunnels@)) {
            Some(s) => r is Ok && r->Ok_0@ == s,
            None => r is Err && r->Err_0@ == spec_format_error(),
        },
{
    let ghost local = views_of(local_tunnels@);
    let ghost remote = views_of(remote_tunnels@);
    let mut al: Vec<String> = Vec::new();
    let mut af: Vec<String> = Vec::new();
    let mut i: usize = 0;
    assert(views_of(al@) =~= distinct(listens(remote).take(0)));
    while i < remote_tunnels.len()
        invariant
            i <= remote_tunnels@.len(),
            remote == views_of(remote_tunnels@),
            views_of(al@) == distinct(listens(remote).take(i as int)),
            forall|j: int|
                0 <= j < i ==> spec_parse_request(#[trigger] remote[j], "R"@) is Some,
        decreases remote_tunnels@.len() - i,
    {
        assert(remote[i as int] == remote_tunnels@[i as int]@);
        match parse_tunnel_request(remote_tunnels[i].as_str(), "R") {
            Err(m) => {
                assert(!all_parse(remote, "R"@));
                return Err(m);
            },
            Ok(q) => {
                let ghost before = listens(remote).take(i as int);
                assert(before.push(q.listen_addr@) =~= listens(remote).take(i + 1));
                add_distinct(&mut al, q.listen_addr, Ghost(before));
            },
        }
        i = i + 1;
    }
    assert(listens(remote).take(i as int) =~= listens(remote));
    i = 0;
    assert(views_of(af@) =~= distinct(targets(local).take(0)));
    while i < local_tunnels.len()
        invariant
            i <= local_tunnels@.len(),
            local == views_of(local_tunnels@),
            views_of(af@) == distinct(targets(local).take(i as int)),
            forall|j: int|
                0 <= j < i ==> spec_parse_request(#[trigger] local[j], "L"@) is Some,
        decreases local_tunnels@.len() - i,
    {
        assert(local[i as int] == local_tunnels@[i as int]@);
        match parse_tunnel_request(local_tunnels[i].as_str(), "L") {
            Err(m) => {
                assert(!all_parse(local, "L"@));
                return Err(m);
            },
            Ok(q) => {
                let ghost before = targets(local).take(i as int);
                assert(before.push(q.target_addr@) =~= targets(local).take(i + 1));
                add_distinct(&mut af, q.target_addr, Ghost(before));
            },
        }
        i = i + 1;
    }
    assert(targets(local).take(i as int) =~= targets(local));
    assert(views_of(al@).len() == al@.len() && views_of(af@).len() == af@.len());
    if al.len() == 0 && af.len() == 0 {
        let s = String::new();
        assert(s@ =~= Seq::empty());
        return Ok(s);
    }
    let mut cmd = join2("QVOLE_CODE=", code);
    cmd.push_str(" qvole tunnel");
    push_flagged(&mut cmd, " -aL ", &al);
    push_flagged(&mut cmd, " -aF ", &af);
    Ok(cmd)
}

/// A command for the peer, as it is printed.
pub open spec fn spec_hint_block(peer_cmd: Seq<char>) -> Seq<char> {
    "# peer command\n"@ + peer_cmd + "\n"@
}

pub fn peer_hint_block(peer_cmd: &str) -> (s: String)
    ensures
        s@ == spec_hint_block(peer_cmd@),
{
    let mut s = join2("# peer command\n", peer_cmd);
    s.push_str("\n");
    s
}

proof fn lemma_distinct(s: Seq<Seq<char>>, i: int)
    requires
        0 <= i < s.len(),
    ensures
        distinct(s).contains(s[i]),
    decreases s.len(),
{
    let d = distinct(s.drop_last());
    if i == s.len() - 1 {
        if !d.contains(s.last()) {
            assert(distinct(s)[d.len() as int] == s[i]);
        }
    } else {
        lemma_distinct(s.drop_last(), i);
        let j = choose|j: int| 0 <= j < d.len() && d[j] == s[i];
        assert(d[j] == s.drop_last()[i]);
        assert(distinct(s)[j] == s[i]);
    }
}

proof fn lemma_no_fault(texts: Seq<Seq<char>>, typ: Seq<char>, i: int)
    requires
        first_fault(texts, typ) is None,
        0 <= i < texts.len(),
    ensures
        tunnel_fault(texts[i], typ) is None,
    decreases texts.len(),
{
    if i > 0 {
        lemma_no_fault(texts.drop_first(), typ, i - 1);
    }
}

/// Some entry of the list matches the address.
pub open spec fn some_matches(entries: Seq<Seq<char>>, addr: Seq<char>) -> bool {
    exists|j: int| 0 <= j < entries.len() && entry_matches(#[trigger] entries[j], addr)
}

/// For tunnels that were checked there is always a command for the peer, and
/// what it allows the peer matches every address that this side asks for.
pub proof fn law_hint_permits_requests(
    code: Seq<char>,
    local: Seq<Seq<char>>,
    remote: Seq<Seq<char>>,
)
    requires
        first_fault(local, "L"@) is None,
        first_fault(remote, "R"@) is None,
    ensures
        spec_peer_command(code, local, remote) is Some,
        forall|i: int|
            0 <= i < remote.len() ==> some_matches(
                distinct(listens(remote)),
                #[trigger] listens(remote)[i],
            ),
        forall|i: int|
            0 <= i < local.len() ==> some_matches(
                distinct(targets(local)),
                #[trigger] targets(local)[i],
            ),
{
    assert forall|i: int| 0 <= i < remote.len() implies spec_parse_request(
        #[trigger] remote[i],
        "R"@,
    ) is Some by {
        lemma_no_fault(remote, "R"@, i);
    }
    assert forall|i: int| 0 <= i < local.len() implies spec_parse_request(
        #[trigger] local[i],
        "L"@,
    ) is Some by {
        lemma_no_fault(local, "L"@, i);
    }
    assert forall|i: int| 0 <= i < remote.len() implies some_matches(
        distinct(listens(remote)),
        #[trigger] listens(remote)[i],
    ) by {
        let s = listens(remote);
        lemma_no_fault(remote, "R"@, i);
        lemma_distinct(s, i);
        let j = choose|j: int| 0 <= j < distinct(s).len() && distinct(s)[j] == s[i];
        assert(entry_matches(distinct(s)[j], s[i]));
    }
    assert forall|i: int| 0 <= i < local.len() implies some_matches(
        distinct(targets(local)),
        #[trigger] targets(local)[i],
    ) by {
        let s = targets(local);
        lemma_no_fault(local, "L"@, i);
        lemma_distinct(s, i);
        let j = choose|j: int| 0 <= j < distinct(s).len() && distinct(s)[j] == s[i];
        assert(entry_matches(distinct(s)[j], s[i]));
    }
}

} // verus!
