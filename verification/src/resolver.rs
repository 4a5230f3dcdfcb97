//! Host and port: taking an address apart, and finding out what a port is.
use vstd::prelude::*;
use vstd::slice::slice_subrange;

use crate::net::IpAddr;
use crate::seqs::{find_char, rfind_char};
use crate::text::{
    chars_of, contains_chars, join2, rest_after_last, split_chars, split_words, string_of,
};

verus! {

/// What is wrong with an address.
#[derive(Clone, Copy, Debug, PartialEq, Eq, Structural)]
pub enum AddrFault {
    MissingPort,
    TooManyColons,
    MissingBracket,
    UnexpectedOpen,
    UnexpectedClose,
}

impl AddrFault {
    pub open spec fn spec_why(self) -> Seq<char> {
        match self {
            AddrFault::MissingPort => "missing port in address"@,
            AddrFault::TooManyColons => "too many colons in address"@,
            AddrFault::MissingBracket => "missing ']' in address"@,
            AddrFault::UnexpectedOpen => "unexpected '[' in address"@,
            AddrFault::UnexpectedClose => "unexpected ']' in address"@,
        }
    }

    pub fn why(&self) -> (s: &'static str)
        ensures
            s@ == self.spec_why(),
    {
        match self {
            AddrFault::MissingPort => "missing port in address",
            AddrFault::TooManyColons => "too many colons in address",
            AddrFault::MissingBracket => "missing ']' in address",
            AddrFault::UnexpectedOpen => "unexpected '[' in address",
            AddrFault::UnexpectedClose => "unexpected ']' in address",
        }
    }
}

/// `host:port` or `[host]:port` at its last colon. Outside brackets a host has
/// no colon, and nothing has a stray bracket.
pub open spec fn spec_split_addr(s: Seq<char>) -> Result<(Seq<char>, Seq<char>), AddrFault> {
    let colon = crate::seqs::last_index(s, ':');
    let close = crate::seqs::first_index(s, ']');
    if colon < 0 {
        Err(AddrFault::MissingPort)
    } else if s[0] == '[' {
        if close == s.len() {
            Err(AddrFault::MissingBracket)
        } else if close + 1 == s.len() {
            Err(AddrFault::MissingPort)
        } else if close + 1 != colon {
            if s[close + 1] == ':' {
                Err(AddrFault::TooManyColons)
            } else {
                Err(AddrFault::MissingPort)
            }
        } else if s.skip(1).contains('[') {
            Err(AddrFault::UnexpectedOpen)
        } else if s.skip(close + 1).contains(']') {
            Err(AddrFault::UnexpectedClose)
        } else {
            Ok((s.subrange(1, close), s.skip(colon + 1)))
        }
    } else if s.take(colon).contains(':') {
        Err(AddrFault::TooManyColons)
    } else if s.contains('[') {
        Err(AddrFault::UnexpectedOpen)
    } else if s.contains(']') {
        Err(AddrFault::UnexpectedClose)
    } else {
        Ok((s.take(colon), s.skip(colon + 1)))
    }
}

fn has_char(s: &[char], x: char) -> (b: bool)
    ensures
        b == s@.contains(x),
{
    let i = find_char(s, x);
    proof {
        crate::seqs::lemma_first_index_found(s@, x);
        if s@.contains(x) {
            let k = s@.index_of(x);
            assert(s@[k] == x);
        }
    }
    i < s.len()
}

/// Takes an address apart into host and port.
pub fn split_addr(hostport: &str) -> (r: Result<(String, String), AddrFault>)
    ensures
        match r {
            Ok(hp) => spec_split_addr(hostport@) == Ok::<(Seq<char>, Seq<char>), AddrFault>(
                (hp.0@, hp.1@),
            ),
            Err(e) => spec_split_addr(hostport@) == Err::<(Seq<char>, Seq<char>), AddrFault>(e),
        },
{
    let v = chars_of(hostport);
    let s = v.as_slice();
    let colon: usize = match rfind_char(s, ':') {
        Some(i) => i,
        None => {
            return Err(AddrFault::MissingPort);
        },
    };
    let n: usize = s.len();
    let port = slice_subrange(s, colon + 1, n);
    assert(port@ =~= s@.skip(colon + 1));
    if s[0] == '[' {
        let close = find_char(s, ']');
        if close == n {
            return Err(AddrFault::MissingBracket);
        }
        if close + 1 == n {
            return Err(AddrFault::MissingPort);
        }
        if close + 1 != colon {
            if s[close + 1] == ':' {
                return Err(AddrFault::TooManyColons);
            }
            return Err(AddrFault::MissingPort);
        }
        let tail = slice_subrange(s, 1, n);
        assert(tail@ =~= s@.skip(1));
        if has_char(tail, '[') {
            return Err(AddrFault::UnexpectedOpen);
        }
        let after = slice_subrange(s, close + 1, n);
        assert(after@ =~= s@.skip(close + 1));
        if has_char(after, ']') {
            return Err(AddrFault::UnexpectedClose);
        }
        proof {
            crate::seqs::lemma_first_index_found(s@, ']');
            assert(close != 0);
        }
        Ok((string_of(slice_subrange(s, 1, close)), string_of(port)))
    } else {
        let host = slice_subrange(s, 0, colon);
        assert(host@ =~= s@.take(colon as int));
        if has_char(host, ':') {
            return Err(AddrFault::TooManyColons);
        }
        if has_char(s, '[') {
            return Err(AddrFault::UnexpectedOpen);
        }
        if has_char(s, ']') {
            return Err(AddrFault::UnexpectedClose);
        }
        Ok((string_of(host), string_of(port)))
    }
}

/// The text of an address error.
pub open spec fn addr_error_text(addr: Seq<char>, why: Seq<char>) -> Seq<char> {
    "address "@ + addr + ": "@ + why
}

fn addr_err(addr: &str, why: &str) -> (s: String)
    ensures
        s@ == addr_error_text(addr@, why@),
{
    let mut s = join2("address ", addr);
    s.push_str(": ");
    s.push_str(why);
    s
}

/// Takes an address apart into host and port, with an error text.
pub fn split_host_port(hostport: &str) -> (r: Result<(String, String), String>)
    ensures
        match spec_split_addr(hostport@) {
            Ok(hp) => r is Ok && r->Ok_0.0@ == hp.0 && r->Ok_0.1@ == hp.1,
            Err(e) => r is Err && r->Err_0@ == addr_error_text(hostport@, e.spec_why()),
        },
{
    match split_addr(hostport) {
        Ok(hp) => Ok(hp),
        Err(e) => Err(addr_err(hostport, e.why())),
    }
}

/// Largest number that a positive port is read as.
pub const PORT_CUTOFF: i64 = 0x4000_0000;

/// The number that a port is: decimal digits with an optional sign, large ones
/// clamped so that they stay out of range. Anything else is the name of a
/// service.
pub open spec fn spec_parse_port(s: Seq<char>) -> Option<i64> {
    let (neg, d) = crate::number::unsigned_part(s);
    let v = crate::number::digits_value(d);
    if !crate::number::all_digits(d) {
        None
    } else if neg {
        Some(
            if v > PORT_CUTOFF {
                (-PORT_CUTOFF) as i64
            } else {
                (-(v as int)) as i64
            },
        )
    } else {
        Some(
            if v >= PORT_CUTOFF {
                (PORT_CUTOFF - 1) as i64
            } else {
                v as i64
            },
        )
    }
}

pub fn parse_port(service: &str) -> (r: Option<i64>)
    ensures
        r == spec_parse_port(service@),
{
    let v = chars_of(service);
    let neg = v.len() > 0 && v[0] == '-';
    let from: usize = if neg || (v.len() > 0 && v[0] == '+') {
        1
    } else {
        0
    };
    let ghost d = crate::number::unsigned_part(service@).1;
    proof {
        if from == 0 {
            assert(d =~= v@.skip(0));
        } else {
            assert(d =~= v@.skip(1));
        }
    }
    let mut n: i64 = 0;
    let mut i: usize = from;
    while i < v.len()
        invariant
            from <= i <= v@.len(),
            d == v@.skip(from as int),
            d == crate::number::unsigned_part(service@).1,
            0 <= n <= PORT_CUTOFF + 1,
            forall|j: int| 0 <= j < i - from ==> crate::number::is_digit(#[trigger] d[j]),
            n <= PORT_CUTOFF ==> n == crate::number::digits_value(d.take(i - from)),
            n > PORT_CUTOFF ==> crate::number::digits_value(d.take(i - from)) > PORT_CUTOFF,
        decreases v@.len() - i,
    {
        let c = v[i];
        assert(d[i - from] == c);
        if !('0' <= c && c <= '9') {
            assert(!crate::number::is_digit(d[i - from]));
            return None;
        }
        let x: i64 = c as i64 - 48;
        proof {
            let t = d.take(i - from + 1);
            assert(t.drop_last() =~= d.take(i - from));
            assert(t.last() == c);
        }
        let next: i64 = n * 10 + x;
        n = if next > PORT_CUTOFF {
            PORT_CUTOFF + 1
        } else {
            next
        };
        i = i + 1;
    }
    assert(d.take(i - from) =~= d);
    if neg {
        Some(
            if n > PORT_CUTOFF {
                -PORT_CUTOFF
            } else {
                -n
            },
        )
    } else {
        Some(
            if n >= PORT_CUTOFF {
                PORT_CUTOFF - 1
            } else {
                n
            },
        )
    }
}

/// The UDP port that one line of a services file gives a service, by its name
/// or an alias: `<name> <port>/udp <alias>...`, up to a `#`.
pub open spec fn line_port(line: Seq<char>, service: Seq<char>) -> Option<u16> {
    let f = crate::text::words(line.take(crate::seqs::first_index(line, '#')));
    let slash = crate::seqs::first_index(f[1], '/');
    let port = spec_parse_port(f[1].take(slash));
    if f.len() >= 2 && slash < f[1].len() && port is Some && 0 <= port->0 <= 65535 && f[1].skip(
        slash + 1,
    ) == "udp"@ && (exists|i: int| 0 <= i < f.len() && i != 1 && #[trigger] f[i] == service) {
        Some(port->0 as u16)
    } else {
        None
    }
}

#[verifier::loop_isolation(false)]
fn line_lookup(line: &[char], service: &[char]) -> (r: Option<u16>)
    ensures
        r == line_port(line@, service@),
{
    let hash = find_char(line, '#');
    let text = slice_subrange(line, 0, hash);
    assert(text@ =~= line@.take(hash as int));
    let f = split_words(text);
    let ghost fs = crate::text::words(text@);
    if f.len() < 2 {
        return None;
    }
    assert(f@[1]@ == fs[1]);
    let portnet = f[1].as_slice();
    let slash = find_char(portnet, '/');
    let n: usize = portnet.len();
    if slash >= n {
        return None;
    }
    let head = slice_subrange(portnet, 0, slash);
    assert(head@ =~= portnet@.take(slash as int));
    let port: i64 = match parse_port(string_of(head).as_str()) {
        Some(p) => p,
        None => {
            return None;
        },
    };
    if port < 0 || port > 65535 {
        return None;
    }
    let net = slice_subrange(portnet, slash + 1, n);
    assert(net@ =~= portnet@.skip(slash + 1));
    let udp = chars_of("udp");
    if !crate::seqs::same_chars(net, udp.as_slice()) {
        return None;
    }
    let mut i: usize = 0;
    while i < f.len()
        invariant
            i <= f@.len(),
            fs == crate::text::char_views(f@),
            forall|j: int| 0 <= j < i && j != 1 ==> #[trigger] fs[j] != service@,
        decreases f@.len() - i,
    {
        if i != 1 && crate::seqs::same_chars(f[i].as_slice(), service) {
            assert(fs[i as int] == service@);
            return Some(port as u16);
        }
        i = i + 1;
    }
    None
}

/// The UDP port of a service, from the first of the first `k` lines that gives
/// it one.
pub open spec fn first_port(lines: Seq<Seq<char>>, service: Seq<char>, k: int) -> Option<u16>
    decreases k,
{
    if k <= 0 {
        None
    } else {
        match first_port(lines, service, k - 1) {
            Some(p) => Some(p),
            None => line_port(lines[k - 1], service),
        }
    }
}

/// The UDP port of a service in a services file.
pub open spec fn spec_services_lookup(content: Seq<char>, service: Seq<char>) -> Option<u16> {
    let lines = crate::text::split_on(content, '\n');
    first_port(lines, service, lines.len() as int)
}

proof fn lemma_first_port_kept(lines: Seq<Seq<char>>, service: Seq<char>, k: int, n: int)
    requires
        0 <= k <= n,
        first_port(lines, service, k) is Some,
    ensures
        first_port(lines, service, n) == first_port(lines, service, k),
    decreases n,
{
    if k < n {
        lemma_first_port_kept(lines, service, k, n - 1);
    }
}

/// Looks a service up in the text of a services file.
pub fn services_lookup(content: &str, service: &str) -> (r: Option<u16>)
    ensures
        r == spec_services_lookup(content@, service@),
{
    let v = chars_of(content);
    let name = chars_of(service);
    let lines = split_chars(v.as_slice(), '\n');
    let ghost ls = crate::text::split_on(content@, '\n');
    let mut i: usize = 0;
    while i < lines.len()
        invariant
            i <= lines@.len(),
            ls == crate::text::char_views(lines@),
            ls == crate::text::split_on(content@, '\n'),
            name@ == service@,
            first_port(ls, service@, i as int) is None,
        decreases lines@.len() - i,
    {
        assert(ls[i as int] == lines@[i as int]@);
        let p = line_lookup(lines[i].as_slice(), name.as_slice());
        if p.is_some() {
            proof {
                lemma_first_port_kept(ls, service@, i + 1, ls.len() as int);
            }
            return p;
        }
        i = i + 1;
    }
    None
}

/// The port that `service` is: a number, or a name in a services file (if
/// there is one).
pub open spec fn spec_lookup_port(service: Seq<char>, services: Option<Seq<char>>) -> Result<
    u16,
    Seq<char>,
> {
    match spec_parse_port(service) {
        Some(p) => if 0 <= p <= 65535 {
            Ok(p as u16)
        } else {
            Err(addr_error_text(service, "invalid port"@))
        },
        None => {
            let found = match services {
                Some(c) => spec_services_lookup(c, service),
                None => None,
            };
            match found {
                Some(p) => Ok(p),
                None => Err("lookup udp/"@ + service + ": unknown port"@),
            }
        },
    }
}

pub fn lookup_port(service: &str, services: Option<&str>) -> (r: Result<u16, String>)
    ensures
        match spec_lookup_port(service@, crate::env::view_opt(services)) {
            Ok(p) => r is Ok && r->Ok_0 == p,
            Err(m) => r is Err && r->Err_0@ == m,
        },
{
    if let Some(p) = parse_port(service) {
        if 0 <= p && p <= 65535 {
            return Ok(p as u16);
        }
        return Err(addr_err(service, "invalid port"));
    }
    let found: Option<u16> = match services {
        Some(c) => services_lookup(c, service),
        None => None,
    };
    match found {
        Some(p) => Ok(p),
        None => {
            let mut s = join2("lookup udp/", service);
            s.push_str(": unknown port");
            Err(s)
        },
    }
}

/// The host and the port that a UDP address names, before the host is looked
/// up.
pub fn udp_target(addr: &str, services: Option<&str>) -> (r: Result<(String, u16), String>)
    ensures
        match spec_split_addr(addr@) {
            Err(e) => r is Err && r->Err_0@ == addr_error_text(addr@, e.spec_why()),
            Ok(hp) => match spec_lookup_port(hp.1, crate::env::view_opt(services)) {
                Ok(p) => r is Ok && r->Ok_0.0@ == hp.0 && r->Ok_0.1 == p,
                Err(m) => r is Err && r->Err_0@ == m,
            },
        },
{
    match split_host_port(addr) {
        Err(m) => Err(m),
        Ok((host, port)) => match lookup_port(port.as_str(), services) {
            Ok(p) => Ok((host, p)),
            Err(m) => Err(m),
        },
    }
}

/// The address of a host as far as it is known without a lookup, by the address
/// that its text is, if it is one: no host stands for the unspecified address.
pub fn known_ip(host: &str, literal: Option<IpAddr>) -> (r: Option<IpAddr>)
    ensures
        r == (if host@.len() == 0 {
            Some(IpAddr::V4(0))
        } else {
            literal
        }),
{
    if host.is_empty() {
        Some(IpAddr::V4(0))
    } else {
        literal
    }
}

/// The address that a lookup of `host` gives: the first that was found.
pub fn lookup_result(host: &str, found: Result<Vec<IpAddr>, String>) -> (r: Result<IpAddr, String>)
    ensures
        match found {
            Err(msg) => r is Err && r->Err_0@ == "lookup "@ + host@ + ": "@ + dns_reason(msg@),
            Ok(ips) => if ips@.len() > 0 {
                r == Ok::<IpAddr, String>(ips@[0])
            } else {
                r is Err && r->Err_0@ == "lookup "@ + host@ + ": no such host"@
            },
        },
{
    match found {
        Err(msg) => Err(dns_error(host, msg.as_str())),
        Ok(ips) => {
            if ips.len() > 0 {
                return Ok(ips[0]);
            }
            let mut s = join2("lookup ", host);
            s.push_str(": no such host");
            Err(s)
        },
    }
}

/// The reason that a failed name lookup gives, by the system's message.
pub open spec fn dns_reason(msg: Seq<char>) -> Seq<char> {
    if crate::text::occurs_in(msg, "Name or service not known"@) {
        "no such host"@
    } else if crate::text::occurs_in(msg, "Temporary failure in name resolution"@) {
        "server misbehaving"@
    } else {
        crate::text::after_last(msg, ": "@)
    }
}

/// The text of a failed lookup of `host`.
pub fn dns_error(host: &str, msg: &str) -> (s: String)
    ensures
        s@ == "lookup "@ + host@ + ": "@ + dns_reason(msg@),
{
    let m = chars_of(msg);
    let unknown = chars_of("Name or service not known");
    let temporary = chars_of("Temporary failure in name resolution");
    let sep = chars_of(": ");
    let reason = if contains_chars(m.as_slice(), unknown.as_slice()) {
        "no such host".to_owned()
    } else if contains_chars(m.as_slice(), temporary.as_slice()) {
        "server misbehaving".to_owned()
    } else {
        string_of(rest_after_last(m.as_slice(), sep.as_slice()))
    };
    let mut s = join2("lookup ", host);
    s.push_str(": ");
    s.push_str(reason.as_str());
    s
}

/// A bracket or a colon.
pub open spec fn is_delimiter(c: char) -> bool {
    c == '[' || c == ']' || c == ':'
}

/// `host:port`, the host in brackets if it has a colon in it.
pub open spec fn spec_join_host_port(host: Seq<char>, port: Seq<char>) -> Seq<char> {
    if host.contains(':') {
        "["@ + host + "]:"@ + port
    } else {
        host + ":"@ + port
    }
}

/// An address that was put together from a host without brackets and a port
/// without brackets and colons comes apart into these.
pub proof fn law_host_port_round_trip(host: Seq<char>, port: Seq<char>)
    requires
        forall|i: int| 0 <= i < host.len() ==> #[trigger] host[i] != '[' && host[i] != ']',
        forall|i: int| 0 <= i < port.len() ==> !is_delimiter(#[trigger] port[i]),
    ensures
        spec_split_addr(spec_join_host_port(host, port)) == Ok::<
            (Seq<char>, Seq<char>),
            AddrFault,
        >((host, port)),
{
    reveal_strlit("[");
    reveal_strlit("]:");
    reveal_strlit(":");
    let s = spec_join_host_port(host, port);
    let n = host.len() as int;
    crate::seqs::lemma_last_index_found(s, ':');
    let colon = crate::seqs::last_index(s, ':');
    if host.contains(':') {
        assert(s[0] == '[');
        assert(s[n + 1] == ']');
        assert(s[n + 2] == ':');
        assert forall|j: int| n + 2 < j < s.len() implies !is_delimiter(s[j]) by {
            assert(s[j] == port[j - n - 3]);
        }
        assert(colon == n + 2);
        assert forall|j: int| 0 < j < n + 1 implies s[j] != ']' && s[j] != '[' by {
            assert(s[j] == host[j - 1]);
        }
        crate::seqs::lemma_first_index(s, ']', n + 1);
        let t = s.skip(1);
        assert(!t.contains('[')) by {
            if t.contains('[') {
                let k = t.index_of('[');
                assert(t[k] == s[k + 1]);
            }
        }
        let u = s.skip(n + 2);
        assert(!u.contains(']')) by {
            if u.contains(']') {
                let k = u.index_of(']');
                assert(u[k] == s[k + n + 2]);
            }
        }
        assert(s.subrange(1, n + 1) =~= host);
        assert(s.skip(colon + 1) =~= port);
    } else {
        assert(s[n] == ':');
        assert forall|j: int| n < j < s.len() implies !is_delimiter(s[j]) by {
            assert(s[j] == port[j - n - 1]);
        }
        assert(colon == n);
        assert(s.take(n) =~= host);
        assert(s.skip(colon + 1) =~= port);
        assert forall|j: int| 0 <= j < s.len() implies s[j] != '[' && s[j] != ']' by {
            if j < n {
                assert(s[j] == host[j]);
            }
        }
        if n > 0 {
            assert(s[0] == host[0]);
        }
    }
}

} // verus!
