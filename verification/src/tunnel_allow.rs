//! Which of a peer's tunnel requests are honoured. Nothing is, unless an entry
//! of a list allows it, or everything is allowed.
//!
//! Whether the peer may reach a target is decided on IP addresses: those that
//! the target resolves to, held against those that the entries resolve to.
//! [`TunnelAllow::allows_listen`] and [`TunnelAllow::allows_forward`] compare
//! the text of an address only.
use vstd::prelude::*;

use crate::net::IpAddr;
use crate::resolver::split_addr;
use crate::seqs::same_chars;
use crate::text::{chars_of, join2, lowercase, quoted, split_chars};

verus! {

/// Time to resolve a host name, in milliseconds.
pub const RESOLVE_TIMEOUT_MS: u64 = 3_000;

/// An address and port that may be reached; without an address, the port on
/// any host.
#[derive(Debug)]
pub struct IpRule {
    pub port: String,
    pub ip: Option<IpAddr>,
}

/// What a peer may do.
#[derive(Debug)]
pub struct TunnelAllow {
    /// Everything.
    pub all: bool,
    /// Have this side listen on one of these addresses.
    pub listen: Vec<String>,
    /// Reach one of these addresses through this side.
    pub forward: Vec<String>,
    /// The entries of `forward`, resolved.
    pub forward_rules: Vec<IpRule>,
}

impl Default for TunnelAllow {
    fn default() -> (a: TunnelAllow)
        ensures
            !a.all,
            a.listen@.len() == 0,
            a.forward@.len() == 0,
            a.forward_rules@.len() == 0,
    {
        TunnelAllow {
            all: false,
            listen: Vec::new(),
            forward: Vec::new(),
            forward_rules: Vec::new(),
        }
    }
}

/// Host and port of an address, if it is one.
pub open spec fn host_port(s: Seq<char>) -> Option<(Seq<char>, Seq<char>)> {
    match crate::resolver::spec_split_addr(s) {
        Ok(hp) => Some(hp),
        Err(_) => None,
    }
}

/// Takes an address apart into host and port. The port may be empty.
pub fn split_host_port(hostport: &str) -> (r: Option<(String, String)>)
    ensures
        match r {
            Some(hp) => host_port(hostport@) == Some((hp.0@, hp.1@)),
            None => host_port(hostport@) is None,
        },
{
    match split_addr(hostport) {
        Ok(hp) => Some(hp),
        Err(_) => None,
    }
}

/// An entry matches an address: the same port, and the same host in any case
/// or no host at all.
pub open spec fn entry_matches(entry: Seq<char>, addr: Seq<char>) -> bool {
    match (host_port(entry), host_port(addr)) {
        (Some(e), Some(a)) => e.1 == a.1 && (e.0.len() == 0 || crate::text::lower_text(e.0)
            == crate::text::lower_text(a.0)),
        _ => false,
    }
}

/// One of the entries matches an address.
pub open spec fn spec_allow_match(entries: Seq<String>, addr: Seq<char>) -> bool {
    exists|i: int| 0 <= i < entries.len() && entry_matches((#[trigger] entries[i])@, addr)
}

fn same_text(a: &str, b: &str) -> (r: bool)
    ensures
        r == (a@ == b@),
{
    same_chars(chars_of(a).as_slice(), chars_of(b).as_slice())
}

fn allow_match(entries: &Vec<String>, addr: &str) -> (r: bool)
    ensures
        r == spec_allow_match(entries@, addr@),
{
    let (host, port) = match split_host_port(addr) {
        Some(hp) => hp,
        None => {
            return false;
        },
    };
    let host = lowercase(host.as_str());
    let mut i: usize = 0;
    while i < entries.len()
        invariant
            i <= entries@.len(),
            host_port(addr@) is Some,
            port@ == (host_port(addr@)->0).1,
            host@ == crate::text::lower_text((host_port(addr@)->0).0),
            forall|j: int| 0 <= j < i ==> !entry_matches((#[trigger] entries@[j])@, addr@),
        decreases entries@.len() - i,
    {
        if let Some((h, p)) = split_host_port(entries[i].as_str()) {
            if same_text(p.as_str(), port.as_str()) && (h.as_str().is_empty() || same_text(
                lowercase(h.as_str()).as_str(),
                host.as_str(),
            )) {
                assert(entry_matches(entries@[i as int]@, addr@));
                return true;
            }
        }
        i = i + 1;
    }
    false
}

/// An entry is an address with a port.
pub open spec fn entry_valid(e: Seq<char>) -> bool {
    host_port(e) is Some && (host_port(e)->0).1.len() > 0
}

/// What is said of the first `k` entries that are not valid.
pub open spec fn bad_entries(entries: Seq<String>, flag: Seq<char>, k: int) -> Seq<Seq<char>>
    decreases k,
{
    if k <= 0 {
        Seq::empty()
    } else if entry_valid(entries[k - 1]@) {
        bad_entries(entries, flag, k - 1)
    } else {
        bad_entries(entries, flag, k - 1).push(
            flag + crate::text::quoted_text(entries[k - 1]@),
        )
    }
}

/// The pieces with `, ` between them.
pub open spec fn comma_joined(s: Seq<Seq<char>>) -> Seq<char>
    decreases s.len(),
{
    if s.len() == 0 {
        Seq::empty()
    } else if s.len() == 1 {
        s[0]
    } else {
        comma_joined(s.drop_last()) + ", "@ + s.last()
    }
}

fn find_bad(entries: &Vec<String>, flag: &str, bad: &mut Vec<String>)
    ensures
        crate::room::views_of(final(bad)@) == crate::room::views_of(old(bad)@) + bad_entries(
            entries@,
            flag@,
            entries@.len() as int,
        ),
{
    let ghost before = crate::room::views_of(bad@);
    let mut i: usize = 0;
    assert(before + bad_entries(entries@, flag@, 0) =~= before);
    while i < entries.len()
        invariant
            i <= entries@.len(),
            crate::room::views_of(bad@) == before + bad_entries(entries@, flag@, i as int),
        decreases entries@.len() - i,
    {
        let ok = match split_host_port(entries[i].as_str()) {
            Some((_, port)) => !port.as_str().is_empty(),
            None => false,
        };
        if !ok {
            let ghost b0 = bad@;
            let m = join2(flag, quoted(entries[i].as_str()).as_str());
            bad.push(m);
            proof {
                assert(crate::room::views_of(bad@) =~= crate::room::views_of(b0).push(m@));
                assert(crate::room::views_of(bad@) =~= before + bad_entries(
                    entries@,
                    flag@,
                    i + 1,
                ));
            }
        }
        i = i + 1;
    }
}

fn join_all(v: &Vec<String>) -> (s: String)
    ensures
        s@ == comma_joined(crate::room::views_of(v@)),
{
    let ghost vs = crate::room::views_of(v@);
    let mut s = String::new();
    let mut i: usize = 0;
    assert(vs.take(0) =~= Seq::empty());
    while i < v.len()
        invariant
            i <= v@.len(),
            vs == crate::room::views_of(v@),
            s@ == comma_joined(vs.take(i as int)),
        decreases v@.len() - i,
    {
        let ghost t = vs.take(i + 1);
        proof {
            assert(t.drop_last() =~= vs.take(i as int));
            assert(t.last() == v@[i as int]@);
        }
        if i > 0 {
            s.push_str(", ");
        }
        s.push_str(v[i].as_str());
        assert(s@ =~= comma_joined(t));
        i = i + 1;
    }
    assert(vs.take(i as int) =~= vs);
    s
}

/// A rule by its contents: the port, and the address if it has one.
pub type RuleView = (Seq<char>, Option<IpAddr>);

/// The contents of a list of rules.
pub open spec fn rule_views(s: Seq<IpRule>) -> Seq<RuleView> {
    Seq::new(s.len(), |i: int| (s[i].port@, s[i].ip))
}

/// A rule permits an address and port.
pub open spec fn rule_permits(r: RuleView, ip: IpAddr, port: Seq<char>) -> bool {
    r.0 == port && (r.1 is None || r.1 == Some(ip))
}

/// One of the rules permits an address and port.
pub open spec fn rules_permit(rules: Seq<RuleView>, ip: IpAddr, port: Seq<char>) -> bool {
    exists|i: int| 0 <= i < rules.len() && rule_permits(#[trigger] rules[i], ip, port)
}

pub fn match_forward_ips(rules: &Vec<IpRule>, ip: IpAddr, port: &str) -> (b: bool)
    ensures
        b == rules_permit(rule_views(rules@), ip, port@),
{
    let ghost views = rule_views(rules@);
    let mut i: usize = 0;
    while i < rules.len()
        invariant
            i <= rules@.len(),
            views == rule_views(rules@),
            forall|j: int| 0 <= j < i ==> !rule_permits(#[trigger] views[j], ip, port@),
        decreases rules@.len() - i,
    {
        let hit = match rules[i].ip {
            None => true,
            Some(x) => x == ip,
        };
        if hit && same_text(rules[i].port.as_str(), port) {
            assert(rule_permits(views[i as int], ip, port@));
            return true;
        }
        i = i + 1;
    }
    false
}

/// The rules of one entry, whose host resolved to `ips`.
pub open spec fn entry_rules(e: Seq<char>, ips: Seq<IpAddr>) -> Seq<RuleView> {
    match host_port(e) {
        None => Seq::empty(),
        Some(hp) => if hp.0.len() == 0 {
            seq![(hp.1, None)]
        } else {
            Seq::new(ips.len(), |i: int| (hp.1, Some(ips[i])))
        },
    }
}

/// The rules of the first `k` entries.
pub open spec fn spec_forward_rules(
    entries: Seq<String>,
    resolved: Seq<Vec<IpAddr>>,
    k: int,
) -> Seq<RuleView>
    decreases k,
{
    if k <= 0 {
        Seq::empty()
    } else {
        spec_forward_rules(entries, resolved, k - 1) + entry_rules(
            entries[k - 1]@,
            resolved[k - 1]@,
        )
    }
}

/// The rules of a list of entries; `resolved` holds the addresses that the host
/// of each one resolved to.
pub fn build_forward_rules(entries: &Vec<String>, resolved: &Vec<Vec<IpAddr>>) -> (out: Vec<IpRule>)
    requires
        resolved@.len() == entries@.len(),
    ensures
        rule_views(out@) == spec_forward_rules(entries@, resolved@, entries@.len() as int),
{
    let mut out: Vec<IpRule> = Vec::new();
    let mut i: usize = 0;
    assert(rule_views(out@) =~= Seq::empty());
    while i < entries.len()
        invariant
            i <= entries@.len(),
            resolved@.len() == entries@.len(),
            rule_views(out@) == spec_forward_rules(entries@, resolved@, i as int),
        decreases entries@.len() - i,
    {
        let ghost before = rule_views(out@);
        let ghost ips = resolved@[i as int]@;
        let ghost want = entry_rules(entries@[i as int]@, ips);
        match split_host_port(entries[i].as_str()) {
            None => {
                assert(before + want =~= before);
            },
            Some((host, port)) => {
                if host.as_str().is_empty() {
                    out.push(IpRule { port, ip: None });
                    assert(rule_views(out@) =~= before + want);
                } else {
                    let mut j: usize = 0;
                    assert(before + want.take(0) =~= before);
                    while j < resolved[i].len()
                        invariant
                            i < entries@.len(),
                            resolved@.len() == entries@.len(),
                            ips == resolved@[i as int]@,
                            j <= ips.len(),
                            want == Seq::new(ips.len(), |q: int| (port@, Some(ips[q]))),
                            rule_views(out@) == before + want.take(j as int),
                        decreases ips.len() - j,
                    {
                        let ghost o0 = out@;
                        out.push(IpRule { port: port.clone(), ip: Some(resolved[i][j]) });
                        proof {
                            assert(rule_views(out@) =~= rule_views(o0).push(want[j as int]));
                            assert(rule_views(out@) =~= before + want.take(j + 1));
                        }
                        j = j + 1;
                    }
                    assert(want.take(j as int) =~= want);
                }
            },
        }
        i = i + 1;
    }
    out
}

/// The form of an IPv4 address in full: four numbers of one to three digits,
/// without leading zeros, between dots.
pub open spec fn spec_full_dotted(s: Seq<char>) -> bool {
    let g = crate::text::split_on(s, '.');
    g.len() == 4 && forall|i: int|
        0 <= i < 4 ==> 1 <= (#[trigger] g[i]).len() <= 3 && (g[i].len() > 1 ==> g[i][0] != '0')
}

/// Whether an address that is read as IPv4 is written in full.
pub fn is_full_dotted(s: &str) -> (b: bool)
    ensures
        b == spec_full_dotted(s@),
{
    let groups = split_chars(chars_of(s).as_slice(), '.');
    let ghost g = crate::text::split_on(s@, '.');
    if groups.len() != 4 {
        return false;
    }
    let mut i: usize = 0;
    while i < 4
        invariant
            i <= 4,
            groups@.len() == 4,
            g == crate::text::char_views(groups@),
            g == crate::text::split_on(s@, '.'),
            forall|j: int|
                0 <= j < i ==> 1 <= (#[trigger] g[j]).len() <= 3 && (g[j].len() > 1 ==> g[j][0]
                    != '0'),
        decreases 4 - i,
    {
        assert(g[i as int] == groups@[i as int]@);
        let n: usize = groups[i].len();
        if n == 0 || n > 3 || (n > 1 && groups[i][0] == '0') {
            return false;
        }
        i = i + 1;
    }
    true
}

/// The addresses of a host as far as they are known without a lookup, by the
/// address that its text is, if it is one: an address stands for itself, but an
/// IPv4 address only if it is written in full, and no host has none.
pub fn known_ips(host: &str, literal: Option<IpAddr>) -> (r: Option<Vec<IpAddr>>)
    ensures
        ({
            let ip = match literal {
                Some(IpAddr::V4(v)) => if spec_full_dotted(host@) {
                    literal
                } else {
                    None
                },
                _ => literal,
            };
            match r {
                Some(v) => v@ == (if ip is Some {
                    seq![ip->0]
                } else {
                    Seq::empty()
                }) && (ip is Some || host@.len() == 0),
                None => ip is None && host@.len() > 0,
            }
        }),
{
    let ip: Option<IpAddr> = match literal {
        Some(IpAddr::V4(_)) => if is_full_dotted(host) {
            literal
        } else {
            None
        },
        _ => literal,
    };
    match ip {
        Some(ip) => {
            let v: Vec<IpAddr> = vec![ip];
            assert(v@ =~= seq![ip]);
            Some(v)
        },
        None => {
            if host.is_empty() {
                Some(Vec::new())
            } else {
                None
            }
        },
    }
}

/// The addresses that are permitted, in their order.
pub open spec fn permitted(rules: Seq<RuleView>, ips: Seq<IpAddr>, port: Seq<char>) -> Seq<IpAddr>
    decreases ips.len(),
{
    if ips.len() == 0 {
        ips
    } else if rules_permit(rules, ips.last(), port) {
        permitted(rules, ips.drop_last(), port).push(ips.last())
    } else {
        permitted(rules, ips.drop_last(), port)
    }
}

impl TunnelAllow {
    /// Whether any request of the peer may be honoured.
    pub fn accepts(&self) -> (b: bool)
        ensures
            b == (self.all || self.listen@.len() > 0 || self.forward@.len() > 0),
    {
        self.all || self.listen.len() > 0 || self.forward.len() > 0
    }

    /// Everything that is wrong with the entries.
    pub open spec fn spec_bad(&self) -> Seq<Seq<char>> {
        bad_entries(self.listen@, "-aL "@, self.listen@.len() as int) + bad_entries(
            self.forward@,
            "-aF "@,
            self.forward@.len() as int,
        )
    }

    /// Fails if an entry is not an address with a port, and names each that is
    /// not.
    pub fn validate(&self) -> (r: Result<(), String>)
        ensures
            match r {
                Ok(()) => self.spec_bad().len() == 0,
                Err(m) => self.spec_bad().len() > 0 && m@
                    == "invalid tunnel allowlist entries (expected addr:port): "@ + comma_joined(
                    self.spec_bad(),
                ),
            },
    {
        let mut bad: Vec<String> = Vec::new();
        assert(crate::room::views_of(bad@) =~= Seq::empty());
        find_bad(&self.listen, "-aL ", &mut bad);
        find_bad(&self.forward, "-aF ", &mut bad);
        assert(crate::room::views_of(bad@) =~= self.spec_bad());
        if bad.len() == 0 {
            Ok(())
        } else {
            Err(
                join2(
                    "invalid tunnel allowlist entries (expected addr:port): ",
                    join_all(&bad).as_str(),
                ),
            )
        }
    }

    /// Takes note of what the hosts of the entries in `forward` resolved to.
    pub fn resolve(&mut self, resolved: &Vec<Vec<IpAddr>>)
        requires
            resolved@.len() == old(self).forward@.len(),
        ensures
            final(self).all == old(self).all,
            final(self).listen == old(self).listen,
            final(self).forward == old(self).forward,
            rule_views(final(self).forward_rules@) == spec_forward_rules(
                old(self).forward@,
                resolved@,
                resolved@.len() as int,
            ),
    {
        self.forward_rules = build_forward_rules(&self.forward, resolved);
    }

    /// Whether the peer may have this side listen on `addr`.
    pub fn allows_listen(&self, addr: &str) -> (b: bool)
        ensures
            b == (self.all || spec_allow_match(self.listen@, addr@)),
    {
        self.all || allow_match(&self.listen, addr)
    }

    /// Whether the peer may reach `addr` through this side, by its text.
    pub fn allows_forward(&self, addr: &str) -> (b: bool)
        ensures
            b == (self.all || spec_allow_match(self.forward@, addr@)),
    {
        self.all || allow_match(&self.forward, addr)
    }

    /// Whether the entries in `forward` are still to be resolved: there are
    /// some, and no rules yet.
    pub open spec fn spec_unresolved(&self) -> bool {
        self.forward_rules@.len() == 0 && self.forward@.len() > 0
    }

    pub fn unresolved(&self) -> (b: bool)
        ensures
            b == self.spec_unresolved(),
    {
        self.forward_rules.len() == 0 && self.forward.len() > 0
    }

    /// The rules to go by: those that were resolved, or those of what the hosts
    /// of the entries resolve to now.
    pub open spec fn rules_in_force(&self, entry_ips: Seq<Vec<IpAddr>>) -> Seq<RuleView> {
        if self.spec_unresolved() {
            spec_forward_rules(self.forward@, entry_ips, self.forward@.len() as int)
        } else {
            rule_views(self.forward_rules@)
        }
    }

    /// The addresses among `resolved`, what the host of `addr` resolved to, that
    /// the peer may reach, and the port. Where the entries are still to be
    /// [resolved](TunnelAllow::unresolved), `entry_ips` is what the host of each
    /// one resolves to.
    pub fn forward_ips(
        &self,
        addr: &str,
        resolved: &Vec<IpAddr>,
        entry_ips: &Vec<Vec<IpAddr>>,
    ) -> (r: (Vec<IpAddr>, String, bool))
        requires
            self.spec_unresolved() ==> entry_ips@.len() == self.forward@.len(),
        ensures
            ({
                let hp = host_port(addr@);
                let ips = if self.all {
                    resolved@
                } else {
                    permitted(self.rules_in_force(entry_ips@), resolved@, (hp->0).1)
                };
                if hp is None || resolved@.len() == 0 || ips.len() == 0 {
                    r.0@.len() == 0 && r.1@.len() == 0 && !r.2
                } else {
                    r.0@ == ips && r.1@ == (hp->0).1 && r.2
                }
            }),
    {
        let (_, port) = match split_host_port(addr) {
            Some(hp) => hp,
            None => {
                return (Vec::new(), String::new(), false);
            },
        };
        if resolved.len() == 0 {
            return (Vec::new(), String::new(), false);
        }
        let built: Vec<IpRule> = if self.unresolved() {
            build_forward_rules(&self.forward, entry_ips)
        } else {
            Vec::new()
        };
        let rules: &Vec<IpRule> = if self.unresolved() {
            &built
        } else {
            &self.forward_rules
        };
        let ghost force = self.rules_in_force(entry_ips@);
        assert(rule_views(rules@) == force);
        let mut ips: Vec<IpAddr> = Vec::new();
        let mut i: usize = 0;
        assert(resolved@.take(0) =~= Seq::empty());
        while i < resolved.len()
            invariant
                i <= resolved@.len(),
                rule_views(rules@) == force,
                ips@ == (if self.all {
                    resolved@.take(i as int)
                } else {
                    permitted(force, resolved@.take(i as int), port@)
                }),
            decreases resolved@.len() - i,
        {
            assert(resolved@.take(i + 1).drop_last() =~= resolved@.take(i as int));
            if self.all || match_forward_ips(rules, resolved[i], port.as_str()) {
                ips.push(resolved[i]);
            }
            assert(self.all ==> ips@ =~= resolved@.take(i + 1));
            i = i + 1;
        }
        assert(resolved@.take(i as int) =~= resolved@);
        if ips.len() == 0 {
            return (Vec::new(), String::new(), false);
        }
        (ips, port, true)
    }
}

/// Every address that comes out is one that the target resolved to, and one
/// that a rule permits.
proof fn lemma_permitted(rules: Seq<RuleView>, ips: Seq<IpAddr>, port: Seq<char>)
    ensures
        forall|i: int|
            0 <= i < permitted(rules, ips, port).len() ==> ips.contains(
                #[trigger] permitted(rules, ips, port)[i],
            ) && rules_permit(rules, permitted(rules, ips, port)[i], port),
    decreases ips.len(),
{
    if ips.len() > 0 {
        let t = ips.drop_last();
        let p = permitted(rules, t, port);
        lemma_permitted(rules, t, port);
        assert forall|i: int| 0 <= i < permitted(rules, ips, port).len() implies ips.contains(
            #[trigger] permitted(rules, ips, port)[i],
        ) && rules_permit(rules, permitted(rules, ips, port)[i], port) by {
            if i < p.len() {
                assert(permitted(rules, ips, port)[i] == p[i]);
                assert(t.contains(p[i]));
                let k = t.index_of(p[i]);
                assert(ips[k] == p[i]);
            } else {
                assert(ips[ips.len() - 1] == permitted(rules, ips, port)[i]);
            }
        }
    }
}

/// An entry, whose host resolved to `ips`, allows an address and port: it has
/// the same port, and no host or one that resolved to the address.
pub open spec fn entry_allows(e: Seq<char>, ips: Seq<IpAddr>, ip: IpAddr, port: Seq<char>) -> bool {
    match host_port(e) {
        None => false,
        Some(hp) => hp.1 == port && (hp.0.len() == 0 || ips.contains(ip)),
    }
}

/// One of the entries allows an address and port.
pub open spec fn entries_allow(
    entries: Seq<String>,
    entry_ips: Seq<Vec<IpAddr>>,
    ip: IpAddr,
    port: Seq<char>,
) -> bool {
    exists|i: int|
        0 <= i < entries.len() && entry_allows(
            (#[trigger] entries[i])@,
            entry_ips[i]@,
            ip,
            port,
        )
}

/// The rules of the first `k` entries permit what one of these entries allows.
proof fn lemma_rules_of_entries(
    entries: Seq<String>,
    entry_ips: Seq<Vec<IpAddr>>,
    k: int,
    ip: IpAddr,
    port: Seq<char>,
)
    requires
        0 <= k <= entries.len(),
    ensures
        rules_permit(spec_forward_rules(entries, entry_ips, k), ip, port) <==> entries_allow(
            entries.take(k),
            entry_ips,
            ip,
            port,
        ),
    decreases k,
{
    if k > 0 {
        let head = spec_forward_rules(entries, entry_ips, k - 1);
        let e = entries[k - 1]@;
        let ips = entry_ips[k - 1]@;
        let tail = entry_rules(e, ips);
        let all = head + tail;
        let seen = entries.take(k);
        let seen0 = entries.take(k - 1);
        lemma_rules_of_entries(entries, entry_ips, k - 1, ip, port);
        if rules_permit(all, ip, port) {
            let i = choose|i: int| 0 <= i < all.len() && rule_permits(#[trigger] all[i], ip, port);
            if i < head.len() {
                assert(rule_permits(head[i], ip, port));
                let j = choose|j: int|
                    0 <= j < seen0.len() && entry_allows(
                        (#[trigger] seen0[j])@,
                        entry_ips[j]@,
                        ip,
                        port,
                    );
                assert(seen[j] == seen0[j]);
            } else {
                let r = tail[i - head.len()];
                assert(all[i] == r);
                if (host_port(e)->0).0.len() > 0 {
                    assert(ips[i - head.len()] == ip);
                }
                assert(seen[k - 1]@ == e);
            }
        }
        if entries_allow(seen, entry_ips, ip, port) {
            let j = choose|j: int|
                0 <= j < seen.len() && entry_allows(
                    (#[trigger] seen[j])@,
                    entry_ips[j]@,
                    ip,
                    port,
                );
            if j < k - 1 {
                assert(seen0[j] == seen[j]);
                let i = choose|i: int|
                    0 <= i < head.len() && rule_permits(#[trigger] head[i], ip, port);
                assert(all[i] == head[i]);
            } else {
                if (host_port(e)->0).0.len() == 0 {
                    assert(all[head.len() as int] == tail[0]);
                } else {
                    let q = ips.index_of(ip);
                    assert(all[head.len() + q] == tail[q]);
                }
            }
        }
    }
}

/// The peer reaches an address through this side just when the target resolved
/// to it and an entry of `forward` allows it: one with the same port, and no
/// host or a host that resolved to the address. So the rules do not permit
/// anything that no entry asks for.
pub proof fn law_forwarded_is_permitted(
    a: TunnelAllow,
    entry_ips: Seq<Vec<IpAddr>>,
    ips: Seq<IpAddr>,
    port: Seq<char>,
    ip: IpAddr,
)
    requires
        a.spec_unresolved() || rule_views(a.forward_rules@) == spec_forward_rules(
            a.forward@,
            entry_ips,
            a.forward@.len() as int,
        ),
    ensures
        permitted(a.rules_in_force(entry_ips), ips, port).contains(ip) <==> ips.contains(ip)
            && entries_allow(a.forward@, entry_ips, ip, port),
{
    let rules = a.rules_in_force(entry_ips);
    lemma_permitted(rules, ips, port);
    if rules_permit(rules, ip, port) {
        lemma_permitted_all(rules, ips, port, ip);
    }
    lemma_rules_of_entries(a.forward@, entry_ips, a.forward@.len() as int, ip, port);
    assert(a.forward@.take(a.forward@.len() as int) =~= a.forward@);
    if permitted(rules, ips, port).contains(ip) {
        let i = permitted(rules, ips, port).index_of(ip);
        assert(permitted(rules, ips, port)[i] == ip);
    }
}

/// Every permitted address comes out.
proof fn lemma_permitted_all(rules: Seq<RuleView>, ips: Seq<IpAddr>, port: Seq<char>, ip: IpAddr)
    requires
        rules_permit(rules, ip, port),
    ensures
        ips.contains(ip) ==> permitted(rules, ips, port).contains(ip),
    decreases ips.len(),
{
    if ips.contains(ip) {
        let t = ips.drop_last();
        let out = permitted(rules, ips, port);
        let k = ips.index_of(ip);
        if ips.last() == ip {
            assert(out[out.len() - 1] == ip);
        } else {
            assert(t[k] == ip);
            lemma_permitted_all(rules, t, port, ip);
            let j = permitted(rules, t, port).index_of(ip);
            assert(out[j] == ip);
        }
    }
}

/// Without entries nothing is allowed.
pub proof fn law_empty_allows_nothing(a: TunnelAllow, addr: Seq<char>, ip: IpAddr, port: Seq<char>)
    requires
        !a.all,
        a.listen@.len() == 0,
        a.forward@.len() == 0,
        a.forward_rules@.len() == 0,
    ensures
        !spec_allow_match(a.listen@, addr),
        !spec_allow_match(a.forward@, addr),
        forall|entry_ips: Seq<Vec<IpAddr>>|
            !#[trigger] rules_permit(a.rules_in_force(entry_ips), ip, port),
{
}

} // verus!
