//! Tunnel requests: how they are written on the command line, and how peers
//! send them to each other.
use vstd::prelude::*;
use vstd::slice::slice_subrange;

use crate::seqs::find_char;
use crate::text::{chars_of, from_utf8_lossy, join2, quoted, string_of};

verus! {

/// Time to connect to the target of a tunnel, in milliseconds.
pub const DIAL_TIMEOUT_MS: u64 = 10_000;

/// Longest line in a peer's list of requests.
pub const SCANNER_MAX_TOKEN_SIZE: usize = 4096;

/// Most requests that one side may make.
pub const MAX_TUNNEL_REQUESTS: usize = 100;

/// Time for the header of a stream to arrive, in milliseconds.
pub const STREAM_HEADER_TIMEOUT_MS: u64 = 15_000;

/// Time for the exchange of requests, in milliseconds.
pub const STREAM_CONFIG_TIMEOUT_MS: u64 = 30_000;

/// A tunnel: connections to `listen_addr` on one side lead to `target_addr` on
/// the other. `typ` is `L` if the side that asks for it listens, and `R` if
/// its peer does.
#[derive(Debug)]
pub struct TunnelRequest {
    pub typ: String,
    pub listen_addr: String,
    pub target_addr: String,
}

/// A [`TunnelRequest`] by its contents.
#[verifier::ext_equal]
pub struct RequestView {
    pub typ: Seq<char>,
    pub listen: Seq<char>,
    pub target: Seq<char>,
}

impl View for TunnelRequest {
    type V = RequestView;

    open spec fn view(&self) -> RequestView {
        RequestView { typ: self.typ@, listen: self.listen_addr@, target: self.target_addr@ }
    }
}

impl Clone for TunnelRequest {
    fn clone(&self) -> (r: Self)
        ensures
            r@ == self@,
    {
        TunnelRequest {
            typ: self.typ.clone(),
            listen_addr: self.listen_addr.clone(),
            target_addr: self.target_addr.clone(),
        }
    }
}

/// The contents of a list of requests.
pub open spec fn request_views(s: Seq<TunnelRequest>) -> Seq<RequestView> {
    Seq::new(s.len(), |i: int| s[i]@)
}

/// Why a list of requests was not accepted.
#[derive(Debug)]
pub enum TunnelRequestError {
    TooMany,
    /// A line that is not three words.
    InvalidLine(String),
    /// A type that is neither `L` nor `R`, and its line.
    InvalidType(String, String),
    /// The list could not be read.
    Read(String),
}

/// A [`TunnelRequestError`] by its contents.
pub enum RequestErrorView {
    TooMany,
    InvalidLine(Seq<char>),
    InvalidType(Seq<char>, Seq<char>),
    Read(Seq<char>),
}

impl View for TunnelRequestError {
    type V = RequestErrorView;

    open spec fn view(&self) -> RequestErrorView {
        match self {
            TunnelRequestError::TooMany => RequestErrorView::TooMany,
            TunnelRequestError::InvalidLine(l) => RequestErrorView::InvalidLine(l@),
            TunnelRequestError::InvalidType(t, l) => RequestErrorView::InvalidType(t@, l@),
            TunnelRequestError::Read(m) => RequestErrorView::Read(m@),
        }
    }
}

/// The text of an error.
pub open spec fn request_error_text(e: RequestErrorView) -> Seq<char> {
    match e {
        RequestErrorView::TooMany => "too many tunnel requests from peer"@,
        RequestErrorView::InvalidLine(l) => "invalid request line: "@ + crate::text::quoted_text(l),
        RequestErrorView::InvalidType(t, l) => "invalid tunnel type "@ + crate::text::quoted_text(t)
            + " in line: "@ + crate::text::quoted_text(l),
        RequestErrorView::Read(m) => "read requests: "@ + m,
    }
}

impl TunnelRequestError {
    pub fn message(&self) -> (s: String)
        ensures
            s@ == request_error_text(self@),
    {
        match self {
            TunnelRequestError::TooMany => "too many tunnel requests from peer".to_owned(),
            TunnelRequestError::InvalidLine(l) => join2(
                "invalid request line: ",
                quoted(l.as_str()).as_str(),
            ),
            TunnelRequestError::InvalidType(t, l) => {
                let mut s = join2("invalid tunnel type ", quoted(t.as_str()).as_str());
                s.push_str(" in line: ");
                s.push_str(quoted(l.as_str()).as_str());
                s
            },
            TunnelRequestError::Read(m) => join2("read requests: ", m.as_str()),
        }
    }
}

/// A line without its end: a line feed, and a carriage return before it.
pub open spec fn without_eol(line: Seq<u8>) -> Seq<u8> {
    let l = if line.len() > 0 && line.last() == 10 {
        line.drop_last()
    } else {
        line
    };
    if l.len() > 0 && l.last() == 13 {
        l.drop_last()
    } else {
        l
    }
}

pub fn strip_eol(line: &[u8]) -> (s: String)
    ensures
        s@ == crate::text::lossy_text(without_eol(line@)),
{
    let mut end: usize = line.len();
    if end > 0 && line[end - 1] == 10 {
        end = end - 1;
    }
    assert(line@.take(end as int) =~= if line@.len() > 0 && line@.last() == 10 {
        line@.drop_last()
    } else {
        line@
    });
    let ghost mid = end;
    if end > 0 && line[end - 1] == 13 {
        end = end - 1;
    }
    assert(line@.take(mid as int).len() > 0 ==> line@.take(mid as int).last() == line@[mid - 1]);
    assert(line@.take(end as int) =~= without_eol(line@));
    let text = slice_subrange(line, 0, end);
    assert(text@ =~= line@.take(end as int));
    from_utf8_lossy(text)
}

/// How deep in brackets the end of `s` is.
pub open spec fn bracket_depth(s: Seq<char>) -> int
    decreases s.len(),
{
    if s.len() == 0 {
        0
    } else {
        bracket_depth(s.drop_last()) + (if s.last() == '[' {
            1int
        } else if s.last() == ']' {
            -1int
        } else {
            0int
        })
    }
}

/// Every bracket has its partner.
pub open spec fn brackets_match(s: Seq<char>) -> bool {
    &&& bracket_depth(s) == 0
    &&& forall|i: int| 0 <= i <= s.len() ==> bracket_depth(#[trigger] s.take(i)) >= 0
}

/// The pieces of `s` between the colons outside brackets.
pub open spec fn colon_parts(s: Seq<char>) -> Seq<Seq<char>>
    decreases s.len(),
{
    if s.len() == 0 {
        seq![Seq::empty()]
    } else {
        let t = s.drop_last();
        let p = colon_parts(t);
        if s.last() == ':' && bracket_depth(t) == 0 {
            p.push(Seq::empty())
        } else {
            p.update(p.len() - 1, p.last().push(s.last()))
        }
    }
}

/// Takes a tunnel specification apart at its colons, leaving bracketed
/// addresses whole. Nothing for brackets that do not match.
pub fn split_tunnel_request(spec_text: &str) -> (r: Option<Vec<String>>)
    ensures
        match r {
            Some(parts) => brackets_match(spec_text@) && crate::room::views_of(parts@)
                == colon_parts(spec_text@),
            None => !brackets_match(spec_text@),
        },
{
    let ghost s = spec_text@;
    let v = chars_of(spec_text);
    let mut parts: Vec<String> = Vec::new();
    let mut cur = String::new();
    let mut depth: usize = 0;
    let mut i: usize = 0;
    proof {
        assert(s.take(0) =~= Seq::empty());
        assert(crate::room::views_of(parts@).push(cur@) =~= seq![Seq::<char>::empty()]);
    }
    while i < v.len()
        invariant
            i <= v@.len(),
            v@ == s,
            s == spec_text@,
            depth == bracket_depth(s.take(i as int)),
            depth <= i,
            forall|j: int| 0 <= j <= i ==> bracket_depth(#[trigger] s.take(j)) >= 0,
            crate::room::views_of(parts@).push(cur@) == colon_parts(s.take(i as int)),
        decreases v@.len() - i,
    {
        let c = v[i];
        let ghost t = s.take(i + 1);
        let ghost p = colon_parts(s.take(i as int));
        proof {
            assert(t.drop_last() =~= s.take(i as int));
            assert(t.last() == c);
            assert(p.last() == cur@);
        }
        if c == ']' && depth == 0 {
            assert(bracket_depth(t) < 0);
            return None;
        }
        if c == ':' && depth == 0 {
            parts.push(cur);
            cur = String::new();
            assert(crate::room::views_of(parts@) =~= p);
        } else {
            cur.push(c);
        }
        if c == '[' {
            depth = depth + 1;
        } else if c == ']' {
            depth = depth - 1;
        }
        assert(crate::room::views_of(parts@).push(cur@) =~= colon_parts(t));
        i = i + 1;
    }
    assert(s.take(i as int) =~= s);
    if depth != 0 {
        return None;
    }
    let ghost p0 = parts@;
    let ghost c0 = cur@;
    parts.push(cur);
    assert(crate::room::views_of(parts@) =~= crate::room::views_of(p0).push(c0));
    Some(parts)
}

/// `s` without the brackets around it.
pub open spec fn spec_strip_brackets(s: Seq<char>) -> Seq<char> {
    if s.len() >= 2 && s[0] == '[' && s.last() == ']' {
        s.subrange(1, s.len() - 1)
    } else {
        s
    }
}

pub fn strip_brackets(s: &str) -> (r: String)
    ensures
        r@ == spec_strip_brackets(s@),
{
    let v = chars_of(s);
    let n: usize = v.len();
    if n >= 2 && v[0] == '[' && v[n - 1] == ']' {
        string_of(slice_subrange(v.as_slice(), 1, n - 1))
    } else {
        s.to_owned()
    }
}

/// Printable ASCII.
pub open spec fn is_printable(c: char) -> bool {
    ' ' <= c <= '~'
}

/// The printable ASCII characters of `s`.
pub open spec fn printable(s: Seq<char>) -> Seq<char>
    decreases s.len(),
{
    if s.len() == 0 {
        s
    } else if is_printable(s.last()) {
        printable(s.drop_last()).push(s.last())
    } else {
        printable(s.drop_last())
    }
}

/// A text of printable characters is left as it is.
pub proof fn lemma_printable_all(s: Seq<char>)
    requires
        forall|i: int| 0 <= i < s.len() ==> is_printable(#[trigger] s[i]),
    ensures
        printable(s) == s,
    decreases s.len(),
{
    if s.len() > 0 {
        let t = s.drop_last();
        assert forall|i: int| 0 <= i < t.len() implies is_printable(#[trigger] t[i]) by {
            assert(t[i] == s[i]);
        }
        lemma_printable_all(t);
        assert(is_printable(s[s.len() - 1]));
        assert(t.push(s.last()) =~= s);
    }
}

/// Whatever comes from a peer, only printable characters are left of it.
pub proof fn law_parsed_addr_printable(s: Seq<char>)
    ensures
        forall|i: int| 0 <= i < printable(s).len() ==> is_printable(#[trigger] printable(s)[i]),
    decreases s.len(),
{
    if s.len() > 0 {
        let t = printable(s.drop_last());
        law_parsed_addr_printable(s.drop_last());
        assert forall|i: int| 0 <= i < printable(s).len() implies is_printable(
            #[trigger] printable(s)[i],
        ) by {
            if i < t.len() {
                assert(printable(s)[i] == t[i]);
            }
        }
    }
}

/// An address from a peer, without anything that is not printable ASCII.
pub fn parse_addr(s: &str) -> (r: String)
    ensures
        r@ == printable(s@),
{
    let v = chars_of(s);
    let mut r = String::new();
    let mut i: usize = 0;
    assert(v@.take(0) =~= Seq::empty());
    while i < v.len()
        invariant
            i <= v@.len(),
            r@ == printable(v@.take(i as int)),
        decreases v@.len() - i,
    {
        assert(v@.take(i + 1).drop_last() =~= v@.take(i as int));
        if ' ' <= v[i] && v[i] <= '~' {
            r.push(v[i]);
        }
        i = i + 1;
    }
    assert(v@.take(i as int) =~= v@);
    r
}

pub fn join_host_port(host: &str, port: &str) -> (s: String)
    ensures
        s@ == crate::resolver::spec_join_host_port(host@, port@),
{
    let v = chars_of(host);
    let i = find_char(v.as_slice(), ':');
    proof {
        crate::seqs::lemma_first_index_found(host@, ':');
        if host@.contains(':') {
            let k = host@.index_of(':');
            assert(host@[k] == ':');
        }
    }
    let mut s = String::new();
    if i < v.len() {
        s.push_str("[");
        s.push_str(host);
        s.push_str("]:");
    } else {
        s.push_str(host);
        s.push_str(":");
    }
    s.push_str(port);
    assert(s@ =~= crate::resolver::spec_join_host_port(host@, port@));
    s
}

/// The message for a specification that is none.
pub open spec fn spec_format_error() -> Seq<char> {
    "expected [laddr:]lport:raddr:rport or [raddr:]rport:laddr:lport format"@
}

/// A tunnel specification read: `lport:raddr:rport`, with the loopback address
/// to listen on, or `laddr:lport:raddr:rport`.
pub open spec fn spec_parse_request(s: Seq<char>, typ: Seq<char>) -> Option<RequestView> {
    let p = colon_parts(s);
    if !brackets_match(s) {
        None
    } else if p.len() == 3 {
        Some(
            RequestView {
                typ,
                listen: crate::resolver::spec_join_host_port("127.0.0.1"@, p[0]),
                target: crate::resolver::spec_join_host_port(spec_strip_brackets(p[1]), p[2]),
            },
        )
    } else if p.len() == 4 {
        let h = spec_strip_brackets(p[0]);
        Some(
            RequestView {
                typ,
                listen: crate::resolver::spec_join_host_port(
                    if h.len() == 0 {
                        "127.0.0.1"@
                    } else {
                        h
                    },
                    p[1],
                ),
                target: crate::resolver::spec_join_host_port(spec_strip_brackets(p[2]), p[3]),
            },
        )
    } else {
        None
    }
}

pub fn parse_tunnel_request(spec_text: &str, typ: &str) -> (r: Result<TunnelRequest, String>)
    ensures
        match spec_parse_request(spec_text@, typ@) {
            Some(q) => r is Ok && r->Ok_0@ == q,
            None => r is Err && r->Err_0@ == spec_format_error(),
        },
{
    let parts: Vec<String> = match split_tunnel_request(spec_text) {
        Some(p) => p,
        None => Vec::new(),
    };
    let ghost p = colon_parts(spec_text@);
    if parts.len() == 3 {
        assert(p[0] == parts@[0]@ && p[1] == parts@[1]@ && p[2] == parts@[2]@);
        let q = TunnelRequest {
            typ: typ.to_owned(),
            listen_addr: join_host_port("127.0.0.1", parts[0].as_str()),
            target_addr: join_host_port(
                strip_brackets(parts[1].as_str()).as_str(),
                parts[2].as_str(),
            ),
        };
        Ok(q)
    } else if parts.len() == 4 {
        assert(p[0] == parts@[0]@ && p[1] == parts@[1]@ && p[2] == parts@[2]@ && p[3]
            == parts@[3]@);
        let h = strip_brackets(parts[0].as_str());
        let host: &str = if h.as_str().is_empty() {
            "127.0.0.1"
        } else {
            h.as_str()
        };
        let q = TunnelRequest {
            typ: typ.to_owned(),
            listen_addr: join_host_port(host, parts[1].as_str()),
            target_addr: join_host_port(
                strip_brackets(parts[2].as_str()).as_str(),
                parts[3].as_str(),
            ),
        };
        Ok(q)
    } else {
        Err("expected [laddr:]lport:raddr:rport or [raddr:]rport:laddr:lport format".to_owned())
    }
}

} // verus!
