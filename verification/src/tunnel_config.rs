//! The exchange of tunnel requests between two peers: a line that says whether
//! a side accepts requests at all, a line for each of its own requests, and
//! `END`.
use vstd::prelude::*;
use vstd::slice::slice_subrange;

use crate::ascii::to_bytes;
use crate::seqs::{find_char, same_chars};
use crate::text::{chars_of, join2, quoted, string_of};
use crate::tunnel_request::{
    parse_addr, strip_eol, RequestErrorView, RequestView, TunnelRequest, TunnelRequestError,
    MAX_TUNNEL_REQUESTS, SCANNER_MAX_TOKEN_SIZE,
};

verus! {

/// Up to the first space, and what follows it.
pub open spec fn split_word(s: Seq<char>) -> (Seq<char>, Option<Seq<char>>) {
    let i = crate::seqs::first_index(s, ' ');
    if i < s.len() {
        (s.take(i), Some(s.skip(i + 1)))
    } else {
        (s, None)
    }
}

/// A request from its line: type, listening address and target, with a space
/// between them.
pub open spec fn spec_parse_line(text: Seq<char>) -> Result<RequestView, RequestErrorView> {
    let (typ, rest) = split_word(text);
    match rest {
        None => Err(RequestErrorView::InvalidLine(text)),
        Some(rest) => {
            let (listen, target) = split_word(rest);
            match target {
                None => Err(RequestErrorView::InvalidLine(text)),
                Some(target) => if typ != "L"@ && typ != "R"@ {
                    Err(RequestErrorView::InvalidType(typ, text))
                } else {
                    Ok(
                        RequestView {
                            typ,
                            listen: crate::tunnel_request::printable(listen),
                            target: crate::tunnel_request::printable(target),
                        },
                    )
                },
            }
        },
    }
}

fn word(s: &[char]) -> (r: (&[char], Option<&[char]>))
    ensures
        r.0@ == split_word(s@).0,
        match r.1 {
            Some(t) => split_word(s@).1 == Some(t@),
            None => split_word(s@).1 is None,
        },
{
    let i = find_char(s, ' ');
    let n: usize = s.len();
    if i < n {
        let head = slice_subrange(s, 0, i);
        let tail = slice_subrange(s, i + 1, n);
        assert(head@ =~= s@.take(i as int));
        assert(tail@ =~= s@.skip(i + 1));
        (head, Some(tail))
    } else {
        (s, None)
    }
}

fn parse_line(text: &str) -> (r: Result<TunnelRequest, TunnelRequestError>)
    ensures
        match spec_parse_line(text@) {
            Ok(q) => r is Ok && r->Ok_0@ == q,
            Err(e) => r is Err && r->Err_0@ == e,
        },
{
    let v = chars_of(text);
    let (typ, rest) = word(v.as_slice());
    let rest: &[char] = match rest {
        None => {
            return Err(TunnelRequestError::InvalidLine(text.to_owned()));
        },
        Some(t) => t,
    };
    let (listen, target) = word(rest);
    let target: &[char] = match target {
        None => {
            return Err(TunnelRequestError::InvalidLine(text.to_owned()));
        },
        Some(t) => t,
    };
    let l = chars_of("L");
    let r = chars_of("R");
    if !same_chars(typ, l.as_slice()) && !same_chars(typ, r.as_slice()) {
        return Err(TunnelRequestError::InvalidType(string_of(typ), text.to_owned()));
    }
    Ok(
        TunnelRequest {
            typ: string_of(typ),
            listen_addr: parse_addr(string_of(listen).as_str()),
            target_addr: parse_addr(string_of(target).as_str()),
        },
    )
}

/// What one more byte of a list leads to.
pub enum ReadStep {
    /// The list goes on.
    More,
    /// The list is complete.
    Done,
    Failed(TunnelRequestError),
}

/// A [`ReadStep`] by its contents.
pub enum StepView {
    More,
    Done,
    Failed(RequestErrorView),
}

impl View for ReadStep {
    type V = StepView;

    open spec fn view(&self) -> StepView {
        match self {
            ReadStep::More => StepView::More,
            ReadStep::Done => StepView::Done,
            ReadStep::Failed(e) => StepView::Failed(e@),
        }
    }
}

/// Reads a peer's list of requests as it arrives.
pub struct RequestReader {
    pub line: Vec<u8>,
    pub reqs: Vec<TunnelRequest>,
}

/// A [`RequestReader`] by its contents.
#[verifier::ext_equal]
pub struct ReaderView {
    pub line: Seq<u8>,
    pub reqs: Seq<RequestView>,
}

impl View for RequestReader {
    type V = ReaderView;

    open spec fn view(&self) -> ReaderView {
        ReaderView {
            line: self.line@,
            reqs: crate::tunnel_request::request_views(self.reqs@),
        }
    }
}

impl ReaderView {
    /// Nothing read.
    pub open spec fn start() -> ReaderView {
        ReaderView { line: Seq::empty(), reqs: Seq::empty() }
    }

    /// A line is complete.
    pub open spec fn end_line(self, line: Seq<u8>) -> (ReaderView, StepView) {
        let text = crate::text::lossy_text(crate::tunnel_request::without_eol(line));
        let clear = ReaderView { line: Seq::empty(), ..self };
        if text == "END"@ {
            (clear, StepView::Done)
        } else if self.reqs.len() >= MAX_TUNNEL_REQUESTS {
            (clear, StepView::Failed(RequestErrorView::TooMany))
        } else {
            match spec_parse_line(text) {
                Err(e) => (clear, StepView::Failed(e)),
                Ok(q) => (
                    ReaderView { line: Seq::empty(), reqs: self.reqs.push(q) },
                    StepView::More,
                ),
            }
        }
    }

    /// One more byte.
    pub open spec fn step(self, b: u8) -> (ReaderView, StepView) {
        if b == 10 {
            self.end_line(self.line.push(b))
        } else if self.line.len() >= SCANNER_MAX_TOKEN_SIZE {
            (self, StepView::Failed(RequestErrorView::Read("bufio.Scanner: token too long"@)))
        } else {
            (ReaderView { line: self.line.push(b), ..self }, StepView::More)
        }
    }

    /// The end of the input: a last line may lack its end.
    pub open spec fn at_end(self) -> (ReaderView, StepView) {
        if self.line.len() == 0 {
            (self, StepView::Done)
        } else {
            match self.end_line(self.line) {
                (r, StepView::More) => (r, StepView::Done),
                other => other,
            }
        }
    }

    /// The requests in a whole input.
    pub open spec fn read_all(self, data: Seq<u8>) -> Result<Seq<RequestView>, RequestErrorView>
        decreases data.len(),
    {
        let (r, s) = if data.len() == 0 {
            self.at_end()
        } else {
            self.step(data[0])
        };
        match s {
            StepView::Done => Ok(r.reqs),
            StepView::Failed(e) => Err(e),
            StepView::More => r.read_all(data.drop_first()),
        }
    }
}

impl RequestReader {
    pub fn new() -> (r: Self)
        ensures
            r@ == ReaderView::start(),
    {
        let r = RequestReader { line: Vec::new(), reqs: Vec::new() };
        assert(r@.reqs =~= Seq::empty());
        r
    }

    fn end_line(&mut self) -> (s: ReadStep)
        ensures
            (final(self)@, s@) == old(self)@.end_line(old(self)@.line),
    {
        let ghost before = self@;
        let text = strip_eol(self.line.as_slice());
        self.line = Vec::new();
        assert(self@ =~= ReaderView { line: Seq::empty(), ..before });
        if same_chars(chars_of(text.as_str()).as_slice(), chars_of("END").as_slice()) {
            return ReadStep::Done;
        }
        if self.reqs.len() >= MAX_TUNNEL_REQUESTS {
            return ReadStep::Failed(TunnelRequestError::TooMany);
        }
        match parse_line(text.as_str()) {
            Err(e) => ReadStep::Failed(e),
            Ok(q) => {
                self.reqs.push(q);
                assert(self@.reqs =~= before.reqs.push(q@));
                ReadStep::More
            },
        }
    }

    /// Takes in one more byte.
    pub fn push(&mut self, b: u8) -> (s: ReadStep)
        ensures
            (final(self)@, s@) == old(self)@.step(b),
    {
        let ghost before = self@;
        if b == 10 {
            self.line.push(b);
            assert(self@ =~= ReaderView { line: before.line.push(b), ..before });
            return self.end_line();
        }
        if self.line.len() >= SCANNER_MAX_TOKEN_SIZE {
            return ReadStep::Failed(
                TunnelRequestError::Read("bufio.Scanner: token too long".to_owned()),
            );
        }
        self.line.push(b);
        assert(self@ =~= ReaderView { line: before.line.push(b), ..before });
        ReadStep::More
    }

    /// Takes note of the end of the input.
    pub fn finish(&mut self) -> (s: ReadStep)
        ensures
            (final(self)@, s@) == old(self)@.at_end(),
    {
        if self.line.len() == 0 {
            return ReadStep::Done;
        }
        match self.end_line() {
            ReadStep::More => ReadStep::Done,
            other => other,
        }
    }
}

/// Reads a list of requests from all the bytes of a stream.
pub fn read_requests_from_stream(data: &[u8]) -> (r: Result<Vec<TunnelRequest>, TunnelRequestError>)
    ensures
        match ReaderView::start().read_all(data@) {
            Ok(qs) => r is Ok && crate::tunnel_request::request_views(r->Ok_0@) == qs,
            Err(e) => r is Err && r->Err_0@ == e,
        },
{
    let mut reader = RequestReader::new();
    let mut i: usize = 0;
    assert(data@.skip(0) =~= data@);
    while i < data.len()
        invariant
            i <= data@.len(),
            reader@.read_all(data@.skip(i as int)) == ReaderView::start().read_all(data@),
        decreases data@.len() - i,
    {
        assert(data@.skip(i as int)[0] == data@[i as int]);
        assert(data@.skip(i as int).drop_first() =~= data@.skip(i + 1));
        match reader.push(data[i]) {
            ReadStep::More => {},
            ReadStep::Done => {
                return Ok(reader.reqs);
            },
            ReadStep::Failed(e) => {
                return Err(e);
            },
        }
        i = i + 1;
    }
    assert(data@.skip(i as int).len() == 0);
    match reader.finish() {
        ReadStep::More => Ok(reader.reqs),
        ReadStep::Done => Ok(reader.reqs),
        ReadStep::Failed(e) => Err(e),
    }
}

/// What one more byte of the acceptance line leads to.
pub enum AcceptStep {
    /// The line goes on.
    More,
    /// The peer accepts requests, or does not.
    Done(bool),
    Failed(String),
}

/// An [`AcceptStep`] by its contents.
pub enum AcceptView {
    More,
    Done(bool),
    Failed(Seq<char>),
}

impl View for AcceptStep {
    type V = AcceptView;

    open spec fn view(&self) -> AcceptView {
        match self {
            AcceptStep::More => AcceptView::More,
            AcceptStep::Done(b) => AcceptView::Done(*b),
            AcceptStep::Failed(m) => AcceptView::Failed(m@),
        }
    }
}

/// The acceptance line after `line`, by the byte `b`, or the end of the input.
pub open spec fn accept_step(line: Seq<u8>, b: Option<u8>) -> (Seq<u8>, AcceptView) {
    match b {
        None => (line, AcceptView::Failed("read accept: unexpected EOF"@)),
        Some(b) => if b == 10 {
            let text = crate::text::lossy_text(crate::tunnel_request::without_eol(line));
            (
                line,
                if text == "ACCEPT true"@ {
                    AcceptView::Done(true)
                } else if text == "ACCEPT false"@ {
                    AcceptView::Done(false)
                } else {
                    AcceptView::Failed("unexpected line: "@ + crate::text::quoted_text(text))
                },
            )
        } else if line.len() >= SCANNER_MAX_TOKEN_SIZE {
            (line, AcceptView::Failed("read accept: token too long"@))
        } else {
            (line.push(b), AcceptView::More)
        },
    }
}

/// Reads the acceptance line as it arrives.
pub struct AcceptReader {
    pub line: Vec<u8>,
}

impl AcceptReader {
    pub fn new() -> (r: Self)
        ensures
            r.line@ == Seq::<u8>::empty(),
    {
        AcceptReader { line: Vec::new() }
    }

    /// Takes in one more byte, or the end of the input.
    pub fn read_accept_line(&mut self, b: Option<u8>) -> (s: AcceptStep)
        ensures
            (final(self).line@, s@) == accept_step(old(self).line@, b),
    {
        let b: u8 = match b {
            Some(b) => b,
            None => {
                return AcceptStep::Failed("read accept: unexpected EOF".to_owned());
            },
        };
        if b == 10 {
            let text = strip_eol(self.line.as_slice());
            let v = chars_of(text.as_str());
            if same_chars(v.as_slice(), chars_of("ACCEPT true").as_slice()) {
                return AcceptStep::Done(true);
            }
            if same_chars(v.as_slice(), chars_of("ACCEPT false").as_slice()) {
                return AcceptStep::Done(false);
            }
            return AcceptStep::Failed(
                join2("unexpected line: ", quoted(text.as_str()).as_str()),
            );
        }
        if self.line.len() >= SCANNER_MAX_TOKEN_SIZE {
            return AcceptStep::Failed("read accept: token too long".to_owned());
        }
        self.line.push(b);
        AcceptStep::More
    }
}

/// The acceptance line at the beginning of an input, of which `line` was read
/// before: whether requests are accepted, and what follows the line.
pub open spec fn read_accept(line: Seq<u8>, data: Seq<u8>) -> Result<(bool, Seq<u8>), Seq<char>>
    decreases data.len(),
{
    let b = if data.len() == 0 {
        None
    } else {
        Some(data[0])
    };
    match accept_step(line, b) {
        (_, AcceptView::Done(a)) => Ok((a, data.drop_first())),
        (_, AcceptView::Failed(m)) => Err(m),
        (l, AcceptView::More) => read_accept(l, data.drop_first()),
    }
}

/// What a side reads from its peer: whether the peer accepts requests, and the
/// peer's own.
pub open spec fn read_config(data: Seq<u8>) -> Result<(bool, Seq<RequestView>), Seq<char>> {
    match read_accept(Seq::empty(), data) {
        Err(m) => Err(m),
        Ok((a, rest)) => match ReaderView::start().read_all(rest) {
            Err(e) => Err(crate::tunnel_request::request_error_text(e)),
            Ok(qs) => Ok((a, qs)),
        },
    }
}

/// Reads what a peer wrote from all the bytes of a stream.
pub fn read_tunnel_config(data: &[u8]) -> (r: Result<(bool, Vec<TunnelRequest>), String>)
    ensures
        match read_config(data@) {
            Ok((a, qs)) => r is Ok && (r->Ok_0).0 == a && crate::tunnel_request::request_views(
                (r->Ok_0).1@,
            ) == qs,
            Err(m) => r is Err && r->Err_0@ == m,
        },
{
    let mut reader = AcceptReader::new();
    let mut i: usize = 0;
    assert(data@.skip(0) =~= data@);
    loop
        invariant
            i <= data@.len(),
            read_accept(reader.line@, data@.skip(i as int)) == read_accept(Seq::empty(), data@),
        decreases data@.len() - i,
    {
        let n: usize = data.len();
        let b: Option<u8> = if i < n {
            Some(data[i])
        } else {
            None
        };
        proof {
            if i < n {
                assert(data@.skip(i as int)[0] == data@[i as int]);
                assert(data@.skip(i as int).drop_first() =~= data@.skip(i + 1));
            }
        }
        match reader.read_accept_line(b) {
            AcceptStep::Failed(m) => {
                return Err(m);
            },
            AcceptStep::Done(a) => {
                let rest = slice_subrange(data, i + 1, n);
                assert(rest@ =~= data@.skip(i + 1));
                return match read_requests_from_stream(rest) {
                    Ok(qs) => Ok((a, qs)),
                    Err(e) => Err(e.message()),
                };
            },
            AcceptStep::More => {},
        }
        i = i + 1;
    }
}

/// The line of a request.
pub open spec fn request_line(q: RequestView) -> Seq<char> {
    q.typ + " "@ + q.listen + " "@ + q.target + "\n"@
}

/// The acceptance line.
pub open spec fn accept_line(accepts: bool) -> Seq<char> {
    if accepts {
        "ACCEPT true\n"@
    } else {
        "ACCEPT false\n"@
    }
}

/// The lines that a side writes.
pub open spec fn config_lines(accepts: bool, qs: Seq<RequestView>) -> Seq<Seq<char>> {
    seq![accept_line(accepts)] + Seq::new(qs.len(), |i: int| request_line(qs[i])) + seq!["END\n"@]
}

/// The lines to write for a side's requests; fails if there are too many.
pub fn tunnel_config_lines(accepts: bool, my_reqs: &Vec<TunnelRequest>) -> (r: Result<
    Vec<String>,
    String,
>)
    ensures
        ({
            let qs = crate::tunnel_request::request_views(my_reqs@);
            match r {
                Ok(lines) => qs.len() <= MAX_TUNNEL_REQUESTS && crate::room::views_of(lines@)
                    == config_lines(accepts, qs),
                Err(m) => qs.len() > MAX_TUNNEL_REQUESTS && m@ == "too many tunnel requests: "@
                    + crate::number::spec_decimal(qs.len()) + " (max "@
                    + crate::number::spec_decimal(MAX_TUNNEL_REQUESTS as nat) + ")"@,
            }
        }),
{
    let ghost qs = crate::tunnel_request::request_views(my_reqs@);
    if my_reqs.len() > MAX_TUNNEL_REQUESTS {
        let mut m = join2(
            "too many tunnel requests: ",
            crate::number::decimal(my_reqs.len() as u64).as_str(),
        );
        m.push_str(" (max ");
        m.push_str(crate::number::decimal(MAX_TUNNEL_REQUESTS as u64).as_str());
        m.push_str(")");
        return Err(m);
    }
    let mut lines: Vec<String> = Vec::new();
    if accepts {
        lines.push("ACCEPT true\n".to_owned());
    } else {
        lines.push("ACCEPT false\n".to_owned());
    }
    let ghost head = seq![accept_line(accepts)];
    let ghost body = Seq::new(qs.len(), |i: int| request_line(qs[i]));
    assert(crate::room::views_of(lines@) =~= head + body.take(0));
    let mut i: usize = 0;
    while i < my_reqs.len()
        invariant
            i <= my_reqs@.len(),
            qs == crate::tunnel_request::request_views(my_reqs@),
            body == Seq::new(qs.len(), |i: int| request_line(qs[i])),
            crate::room::views_of(lines@) == head + body.take(i as int),
        decreases my_reqs@.len() - i,
    {
        let q = &my_reqs[i];
        let mut s = q.typ.clone();
        s.push_str(" ");
        s.push_str(q.listen_addr.as_str());
        s.push_str(" ");
        s.push_str(q.target_addr.as_str());
        s.push_str("\n");
        assert(s@ =~= request_line(qs[i as int]));
        let ghost l0 = lines@;
        lines.push(s);
        proof {
            assert(crate::room::views_of(lines@) =~= crate::room::views_of(l0).push(s@));
            assert(crate::room::views_of(lines@) =~= head + body.take(i + 1));
        }
        i = i + 1;
    }
    let ghost l0 = lines@;
    lines.push("END\n".to_owned());
    proof {
        assert(body.take(i as int) =~= body);
        assert(crate::room::views_of(lines@) =~= crate::room::views_of(l0).push("END\n"@));
        assert(crate::room::views_of(lines@) =~= config_lines(accepts, qs));
    }
    Ok(lines)
}

/// The requests of both sides in the order that both count them in, the
/// client's first, and where one's own begin.
pub open spec fn merged(mine: Seq<RequestView>, peer: Seq<RequestView>, is_server: bool) -> (
    Seq<RequestView>,
    nat,
) {
    if is_server {
        (peer + mine, peer.len())
    } else {
        (mine + peer, 0)
    }
}

fn append_copies(out: &mut Vec<TunnelRequest>, v: &Vec<TunnelRequest>)
    ensures
        crate::tunnel_request::request_views(final(out)@)
            == crate::tunnel_request::request_views(old(out)@)
            + crate::tunnel_request::request_views(v@),
{
    let ghost a = crate::tunnel_request::request_views(out@);
    let ghost b = crate::tunnel_request::request_views(v@);
    let mut i: usize = 0;
    assert(a + b.take(0) =~= a);
    while i < v.len()
        invariant
            i <= v@.len(),
            b == crate::tunnel_request::request_views(v@),
            crate::tunnel_request::request_views(out@) == a + b.take(i as int),
        decreases v@.len() - i,
    {
        let ghost o0 = out@;
        out.push(v[i].clone());
        proof {
            assert(crate::tunnel_request::request_views(out@)
                =~= crate::tunnel_request::request_views(o0).push(b[i as int]));
            assert(crate::tunnel_request::request_views(out@) =~= a + b.take(i + 1));
        }
        i = i + 1;
    }
    assert(b.take(i as int) =~= b);
}

/// Merges the requests of both sides.
pub fn merge_requests(
    my_reqs: &Vec<TunnelRequest>,
    peer_reqs: &Vec<TunnelRequest>,
    is_server: bool,
) -> (r: (Vec<TunnelRequest>, usize))
    ensures
        ({
            let m = merged(
                crate::tunnel_request::request_views(my_reqs@),
                crate::tunnel_request::request_views(peer_reqs@),
                is_server,
            );
            crate::tunnel_request::request_views(r.0@) == m.0 && r.1 == m.1
        }),
{
    let mut all: Vec<TunnelRequest> = Vec::new();
    assert(crate::tunnel_request::request_views(all@) =~= Seq::empty());
    if is_server {
        append_copies(&mut all, peer_reqs);
        append_copies(&mut all, my_reqs);
        assert(crate::tunnel_request::request_views(all@)
            =~= crate::tunnel_request::request_views(peer_reqs@)
            + crate::tunnel_request::request_views(my_reqs@));
        (all, peer_reqs.len())
    } else {
        append_copies(&mut all, my_reqs);
        append_copies(&mut all, peer_reqs);
        assert(crate::tunnel_request::request_views(all@)
            =~= crate::tunnel_request::request_views(my_reqs@)
            + crate::tunnel_request::request_views(peer_reqs@));
        (all, 0)
    }
}

/// Request `i` is one's own.
pub open spec fn is_mine(i: int, start: int, count: int) -> bool {
    start <= i < start + count
}

/// Both sides have the same list, and each request in it is one side's own and
/// not the other's.
pub proof fn law_both_sides_agree(client: Seq<RequestView>, server: Seq<RequestView>)
    ensures
        ({
            let (c, c_start) = merged(client, server, false);
            let (s, s_start) = merged(server, client, true);
            &&& c == s
            &&& forall|i: int|
                0 <= i < c.len() ==> #[trigger] is_mine(i, c_start as int, client.len() as int)
                    != is_mine(i, s_start as int, server.len() as int)
        }),
{
}

/// A request that survives being written and read: of type `L` or `R`, with
/// addresses of printable characters, the listening one without spaces, and
/// not too long for a line.
pub open spec fn is_sendable(q: RequestView) -> bool {
    &&& q.typ == "L"@ || q.typ == "R"@
    &&& forall|i: int|
        0 <= i < q.listen.len() ==> crate::tunnel_request::is_printable(#[trigger] q.listen[i])
            && q.listen[i] != ' '
    &&& forall|i: int|
        0 <= i < q.target.len() ==> crate::tunnel_request::is_printable(#[trigger] q.target[i])
    &&& q.listen.len() + q.target.len() + 3 <= SCANNER_MAX_TOKEN_SIZE
}

/// The bytes of some lines.
pub open spec fn lines_bytes(lines: Seq<Seq<char>>) -> Seq<u8>
    decreases lines.len(),
{
    if lines.len() == 0 {
        Seq::empty()
    } else {
        vstd::utf8::encode_utf8(lines[0]) + lines_bytes(lines.drop_first())
    }
}

/// The lines of some requests, and `END`.
spec fn list_lines(qs: Seq<RequestView>) -> Seq<Seq<char>> {
    Seq::new(qs.len(), |i: int| request_line(qs[i])) + seq!["END\n"@]
}

/// The bytes of the lines of some requests begin with those of the first.
proof fn lemma_list_bytes(qs: Seq<RequestView>)
    ensures
        lines_bytes(list_lines(qs)) == (if qs.len() == 0 {
            vstd::utf8::encode_utf8("END\n"@)
        } else {
            vstd::utf8::encode_utf8(request_line(qs[0])) + lines_bytes(
                list_lines(qs.drop_first()),
            )
        }),
{
    let lines = list_lines(qs);
    if qs.len() == 0 {
        assert(lines.drop_first() =~= Seq::empty());
        assert(lines_bytes(lines.drop_first()) =~= Seq::empty());
        assert(lines_bytes(lines) =~= vstd::utf8::encode_utf8("END\n"@));
    } else {
        assert(lines.drop_first() =~= list_lines(qs.drop_first()));
    }
}

/// Reading up to the end of a line that is not too long.
proof fn lemma_read_line(r: ReaderView, l: Seq<u8>, rest: Seq<u8>)
    requires
        forall|i: int| 0 <= i < l.len() ==> #[trigger] l[i] != 10,
        r.line.len() + l.len() <= SCANNER_MAX_TOKEN_SIZE,
    ensures
        r.read_all(l + seq![10u8] + rest) == (match r.end_line(r.line + l + seq![10u8]) {
            (r2, StepView::Done) => Ok(r2.reqs),
            (r2, StepView::Failed(e)) => Err(e),
            (r2, StepView::More) => r2.read_all(rest),
        }),
    decreases l.len(),
{
    let data = l + seq![10u8] + rest;
    if l.len() == 0 {
        assert(data[0] == 10);
        assert(data.drop_first() =~= rest);
        assert(r.line.push(10) =~= r.line + l + seq![10u8]);
    } else {
        let r2 = ReaderView { line: r.line.push(l[0]), ..r };
        assert(data[0] == l[0]);
        assert(data.drop_first() =~= l.drop_first() + seq![10u8] + rest);
        assert forall|i: int| 0 <= i < l.drop_first().len() implies #[trigger] l.drop_first()[i]
            != 10 by {
            assert(l.drop_first()[i] == l[i + 1]);
        }
        lemma_read_line(r2, l.drop_first(), rest);
        assert(r2.line + l.drop_first() + seq![10u8] =~= r.line + l + seq![10u8]);
        assert(r2.end_line(r2.line + l.drop_first() + seq![10u8]) == r.end_line(
            r.line + l + seq![10u8],
        ));
    }
}

/// The line of a request, taken apart again.
proof fn lemma_line_parses(q: RequestView)
    requires
        is_sendable(q),
    ensures
        spec_parse_line(q.typ + " "@ + q.listen + " "@ + q.target) == Ok::<
            RequestView,
            RequestErrorView,
        >(q),
        q.typ.len() == 1,
{
    reveal_strlit("L");
    reveal_strlit("R");
    reveal_strlit(" ");
    let rest = q.listen + " "@ + q.target;
    let text = q.typ + " "@ + q.listen + " "@ + q.target;
    assert(text[1] == ' ');
    assert(text[0] == q.typ[0]);
    crate::seqs::lemma_first_index(text, ' ', 1);
    assert(text.take(1) =~= q.typ);
    assert(text.skip(2) =~= rest);
    let n = q.listen.len() as int;
    assert(rest[n] == ' ');
    assert forall|j: int| 0 <= j < n implies rest[j] != ' ' by {
        assert(rest[j] == q.listen[j]);
    }
    crate::seqs::lemma_first_index(rest, ' ', n);
    assert(rest.take(n) =~= q.listen);
    assert(rest.skip(n + 1) =~= q.target);
    crate::tunnel_request::lemma_printable_all(q.listen);
    crate::tunnel_request::lemma_printable_all(q.target);
}

/// A line of printable ASCII, as bytes and back.
proof fn lemma_printable_line(text: Seq<char>)
    requires
        text.len() > 0,
        forall|i: int|
            0 <= i < text.len() ==> crate::tunnel_request::is_printable(#[trigger] text[i]),
    ensures
        ({
            let b = to_bytes(text);
            &&& vstd::utf8::encode_utf8(text + "\n"@) == b + seq![10u8]
            &&& forall|i: int| 0 <= i < b.len() ==> #[trigger] b[i] != 10
            &&& crate::text::lossy_text(crate::tunnel_request::without_eol(b + seq![10u8])) == text
            &&& crate::text::lossy_text(crate::tunnel_request::without_eol(b)) == text
        }),
{
    reveal_strlit("\n");
    let b = to_bytes(text);
    assert forall|i: int| 0 <= i < text.len() implies '\0' <= #[trigger] text[i] <= '\u{7f}' by {
        assert(crate::tunnel_request::is_printable(text[i]));
    }
    assert(vstd::utf8::is_ascii_chars("\n"@));
    crate::ascii::lemma_concat_ascii(text, "\n"@);
    crate::ascii::lemma_ascii(text + "\n"@);
    crate::ascii::lemma_ascii(text);
    assert(to_bytes("\n"@) =~= seq![10u8]);
    assert forall|i: int| 0 <= i < b.len() implies 32 <= #[trigger] b[i] < 127 by {
        assert(crate::tunnel_request::is_printable(text[i]));
    }
    let l = b + seq![10u8];
    assert(l.last() == 10);
    assert(l.drop_last() =~= b);
    assert(32 <= b[b.len() - 1]);
    crate::ascii::lemma_bytes(b);
}

/// The lines of some requests are read as these requests.
proof fn lemma_list_read(r: ReaderView, qs: Seq<RequestView>, rest: Seq<u8>)
    requires
        r.line.len() == 0,
        r.reqs.len() + qs.len() <= MAX_TUNNEL_REQUESTS,
        forall|i: int| 0 <= i < qs.len() ==> is_sendable(#[trigger] qs[i]),
    ensures
        r.read_all(lines_bytes(list_lines(qs)) + rest) == Ok::<
            Seq<RequestView>,
            RequestErrorView,
        >(r.reqs + qs),
    decreases qs.len(),
{
    lemma_list_bytes(qs);
    reveal_strlit("END\n");
    reveal_strlit("END");
    reveal_strlit("\n");
    reveal_strlit("L");
    reveal_strlit("R");
    reveal_strlit(" ");
    if qs.len() == 0 {
        let e = to_bytes("END"@);
        lemma_printable_line("END"@);
        assert("END"@ + "\n"@ =~= "END\n"@);
        assert(lines_bytes(list_lines(qs)) + rest =~= e + seq![10u8] + rest);
        lemma_read_line(r, e, rest);
        assert(r.line + e + seq![10u8] =~= e + seq![10u8]);
        assert(r.reqs + qs =~= r.reqs);
    } else {
        let q = qs[0];
        let text = q.typ + " "@ + q.listen + " "@ + q.target;
        lemma_line_parses(q);
        assert forall|i: int| 0 <= i < text.len() implies crate::tunnel_request::is_printable(
            #[trigger] text[i],
        ) by {
            let n = q.listen.len() as int;
            if 2 <= i < n + 2 {
                assert(text[i] == q.listen[i - 2]);
            } else if i > n + 2 {
                assert(text[i] == q.target[i - n - 3]);
            }
        }
        lemma_printable_line(text);
        let b = to_bytes(text);
        let tail = lines_bytes(list_lines(qs.drop_first())) + rest;
        assert(lines_bytes(list_lines(qs)) + rest =~= b + seq![10u8] + tail);
        lemma_read_line(r, b, tail);
        assert(r.line + b + seq![10u8] =~= b + seq![10u8]);
        assert(text[1] == ' ');
        assert("END"@[1] == 'N');
        let r2 = ReaderView { line: Seq::empty(), reqs: r.reqs.push(q) };
        assert forall|i: int| 0 <= i < qs.drop_first().len() implies is_sendable(
            #[trigger] qs.drop_first()[i],
        ) by {
            assert(qs.drop_first()[i] == qs[i + 1]);
        }
        lemma_list_read(r2, qs.drop_first(), rest);
        assert(r2.reqs + qs.drop_first() =~= r.reqs + qs);
    }
}

/// Reading up to the end of the acceptance line.
proof fn lemma_read_accept(line: Seq<u8>, l: Seq<u8>, rest: Seq<u8>, a: bool)
    requires
        forall|i: int| 0 <= i < l.len() ==> #[trigger] l[i] != 10,
        line.len() + l.len() <= SCANNER_MAX_TOKEN_SIZE,
        accept_step(line + l, Some(10u8)).1 == AcceptView::Done(a),
    ensures
        read_accept(line, l + seq![10u8] + rest) == Ok::<(bool, Seq<u8>), Seq<char>>((a, rest)),
    decreases l.len(),
{
    let data = l + seq![10u8] + rest;
    if l.len() == 0 {
        assert(data[0] == 10);
        assert(data.drop_first() =~= rest);
        assert(line + l =~= line);
    } else {
        assert(data[0] == l[0]);
        assert(data.drop_first() =~= l.drop_first() + seq![10u8] + rest);
        assert forall|i: int| 0 <= i < l.drop_first().len() implies #[trigger] l.drop_first()[i]
            != 10 by {
            assert(l.drop_first()[i] == l[i + 1]);
        }
        assert(line.push(l[0]) + l.drop_first() =~= line + l);
        lemma_read_accept(line.push(l[0]), l.drop_first(), rest, a);
    }
}

/// The text of the acceptance line.
spec fn accept_text(a: bool) -> Seq<char> {
    if a {
        "ACCEPT true"@
    } else {
        "ACCEPT false"@
    }
}

/// The acceptance line is read as what it says.
proof fn lemma_accept_read(a: bool, rest: Seq<u8>)
    ensures
        read_accept(Seq::empty(), vstd::utf8::encode_utf8(accept_line(a)) + rest) == Ok::<
            (bool, Seq<u8>),
            Seq<char>,
        >((a, rest)),
{
    reveal_strlit("ACCEPT true");
    reveal_strlit("ACCEPT false");
    reveal_strlit("ACCEPT true\n");
    reveal_strlit("ACCEPT false\n");
    reveal_strlit("\n");
    let text = accept_text(a);
    let b = to_bytes(text);
    assert(text + "\n"@ =~= accept_line(a));
    lemma_printable_line(text);
    assert(Seq::<u8>::empty() + b =~= b);
    assert("ACCEPT true"@.len() != "ACCEPT false"@.len());
    lemma_read_accept(Seq::empty(), b, rest, a);
}

/// What one side writes, the other reads: whether it accepts requests, and its
/// requests in their order, whatever follows them.
pub proof fn law_config_round_trip(accepts: bool, qs: Seq<RequestView>, rest: Seq<u8>)
    requires
        qs.len() <= MAX_TUNNEL_REQUESTS,
        forall|i: int| 0 <= i < qs.len() ==> is_sendable(#[trigger] qs[i]),
    ensures
        read_config(lines_bytes(config_lines(accepts, qs)) + rest) == Ok::<
            (bool, Seq<RequestView>),
            Seq<char>,
        >((accepts, qs)),
{
    let lines = config_lines(accepts, qs);
    let tail = lines_bytes(list_lines(qs)) + rest;
    assert(lines.drop_first() =~= list_lines(qs));
    assert(lines_bytes(lines) + rest =~= vstd::utf8::encode_utf8(accept_line(accepts)) + tail);
    lemma_accept_read(accepts, tail);
    lemma_list_read(ReaderView::start(), qs, rest);
    assert(ReaderView::start().reqs + qs =~= qs);
}

/// After the exchange each side knows whether the other accepts requests, and
/// both have the same list, the client's requests before the server's; each
/// side's own are where it takes them to be.
pub proof fn law_config_exchanged(
    client_accepts: bool,
    client: Seq<RequestView>,
    server_accepts: bool,
    server: Seq<RequestView>,
)
    requires
        client.len() <= MAX_TUNNEL_REQUESTS,
        server.len() <= MAX_TUNNEL_REQUESTS,
        forall|i: int| 0 <= i < client.len() ==> is_sendable(#[trigger] client[i]),
        forall|i: int| 0 <= i < server.len() ==> is_sendable(#[trigger] server[i]),
    ensures
        ({
            let to_client = read_config(lines_bytes(config_lines(server_accepts, server)));
            let to_server = read_config(lines_bytes(config_lines(client_accepts, client)));
            let (c_list, c_start) = merged(client, (to_client->Ok_0).1, false);
            let (s_list, s_start) = merged(server, (to_server->Ok_0).1, true);
            &&& to_client is Ok && (to_client->Ok_0).0 == server_accepts
            &&& to_server is Ok && (to_server->Ok_0).0 == client_accepts
            &&& c_list == client + server && c_start == 0
            &&& s_list == client + server && s_start == client.len()
            &&& c_list.subrange(0, client.len() as int) == client
            &&& s_list.subrange(s_start as int, (s_start + server.len()) as int) == server
        }),
{
    let from_server = lines_bytes(config_lines(server_accepts, server));
    let from_client = lines_bytes(config_lines(client_accepts, client));
    assert(from_server + Seq::<u8>::empty() =~= from_server);
    assert(from_client + Seq::<u8>::empty() =~= from_client);
    law_config_round_trip(server_accepts, server, Seq::empty());
    law_config_round_trip(client_accepts, client, Seq::empty());
    let all = client + server;
    assert(all.subrange(0, client.len() as int) =~= client);
    assert(all.subrange(client.len() as int, all.len() as int) =~= server);
}

} // verus!
