//! Running a command for the peer: its arguments, and what becomes of it.
use vstd::prelude::*;

use crate::clock::Duration;
use crate::env::{env_duration_ms, Env};
use crate::number::{decimal, spec_decimal};
use crate::pipe::PipeError;
use crate::text::{chars_of, join2};

verus! {

/// How long the peer's input is still read after the command has ended.
pub const EXEC_DRAIN_TIMEOUT_MS: u64 = 5000;

/// Pause between the end of the command's output and the close of the
/// connection.
pub const EXEC_FINISH_DELAY_MS: u64 = 500;

/// A character that separates arguments.
pub open spec fn is_blank(c: char) -> bool {
    c == ' ' || c == '\t'
}

/// How far the arguments of a command have been read.
#[verifier::ext_equal]
pub struct Split {
    /// The arguments that are complete.
    pub args: Seq<Seq<char>>,
    /// The one being read.
    pub current: Seq<char>,
    /// There is one, though it may be empty.
    pub started: bool,
    /// The quotation mark that must come.
    pub quote: Option<char>,
}

impl Split {
    /// The state after the character `c`. Between quotation marks everything
    /// counts; outside, blanks separate.
    pub open spec fn next(self, c: char) -> Split {
        match self.quote {
            Some(q) => if c == q {
                Split { quote: None, ..self }
            } else {
                Split { current: self.current.push(c), ..self }
            },
            None => if c == '\'' || c == '"' {
                Split { started: true, quote: Some(c), ..self }
            } else if is_blank(c) {
                if self.started {
                    Split {
                        args: self.args.push(self.current),
                        current: Seq::empty(),
                        started: false,
                        quote: None,
                    }
                } else {
                    self
                }
            } else {
                Split { current: self.current.push(c), started: true, ..self }
            },
        }
    }

    /// The arguments, if no quotation is open.
    pub open spec fn finish(self) -> Option<Seq<Seq<char>>> {
        if self.quote is Some {
            None
        } else if self.started {
            Some(self.args.push(self.current))
        } else {
            Some(self.args)
        }
    }
}

/// Nothing read yet.
pub open spec fn split_start() -> Split {
    Split { args: Seq::empty(), current: Seq::empty(), started: false, quote: None }
}

/// The state after the text `s`, from the state `from`.
pub open spec fn split_after(from: Split, s: Seq<char>) -> Split
    decreases s.len(),
{
    if s.len() == 0 {
        from
    } else {
        split_after(from, s.drop_last()).next(s.last())
    }
}

/// The arguments of a command line; none when a quotation is not closed.
pub open spec fn spec_split_command(s: Seq<char>) -> Option<Seq<Seq<char>>> {
    split_after(split_start(), s).finish()
}

/// Splits a command line at blanks, with single and double quotation marks.
/// Arguments may be empty between quotation marks. Nothing is escaped.
pub fn split_command(s: &str) -> (r: Option<Vec<String>>)
    ensures
        match spec_split_command(s@) {
            Some(args) => r is Some && crate::room::views_of(r->0@) == args,
            None => r is None,
        },
{
    let v = chars_of(s);
    let mut args: Vec<String> = Vec::new();
    let mut current = String::new();
    let mut started = false;
    let mut quote: Option<char> = None;
    let mut i: usize = 0;
    proof {
        assert(v@.take(0) =~= Seq::empty());
        assert(crate::room::views_of(args@) =~= Seq::empty());
    }
    while i < v.len()
        invariant
            i <= v@.len(),
            split_after(split_start(), v@.take(i as int)) == (Split {
                args: crate::room::views_of(args@),
                current: current@,
                started,
                quote,
            }),
        decreases v@.len() - i,
    {
        let c = v[i];
        proof {
            let t = v@.take(i + 1);
            assert(t.drop_last() =~= v@.take(i as int));
            assert(t.last() == c);
        }
        let ghost before = args@;
        match quote {
            Some(q) => {
                if c == q {
                    quote = None;
                } else {
                    current.push(c);
                }
            },
            None => {
                if c == '\'' || c == '"' {
                    quote = Some(c);
                    started = true;
                } else if c == ' ' || c == '\t' {
                    if started {
                        let ghost cur = current@;
                        args.push(current);
                        current = String::new();
                        started = false;
                        assert(crate::room::views_of(args@) =~= crate::room::views_of(before).push(
                            cur,
                        ));
                        assert(current@ =~= Seq::empty());
                    }
                } else {
                    current.push(c);
                    started = true;
                }
            },
        }
        i = i + 1;
    }
    assert(v@.take(i as int) =~= s@);
    if quote.is_some() {
        return None;
    }
    if started {
        let ghost before = args@;
        let ghost cur = current@;
        args.push(current);
        assert(crate::room::views_of(args@) =~= crate::room::views_of(before).push(cur));
    }
    Some(args)
}

/// How running a command for the peer failed.
#[derive(Debug)]
pub enum ExecError {
    /// The peers could not connect.
    Connect(String),
    Canceled,
    Quic(String),
    Other(String),
    /// The command ended with this status.
    Exit(i32),
    /// The command was killed by a signal.
    Killed,
}

/// A number with its sign.
pub open spec fn signed_text(n: int) -> Seq<char> {
    if n < 0 {
        "-"@ + spec_decimal((-n) as nat)
    } else {
        spec_decimal(n as nat)
    }
}

fn signed(n: i32) -> (s: String)
    ensures
        s@ == signed_text(n as int),
{
    if n < 0 {
        join2("-", decimal((-(n as i64)) as u64).as_str())
    } else {
        decimal(n as u64)
    }
}

impl ExecError {
    /// The text of an error.
    pub open spec fn spec_message(&self) -> Seq<char> {
        match self {
            ExecError::Connect(m) => m@,
            ExecError::Canceled => "canceled"@,
            ExecError::Quic(m) => "quic: "@ + m@,
            ExecError::Other(m) => m@,
            ExecError::Exit(code) => "exit status "@ + signed_text(*code as int),
            ExecError::Killed => "signal: killed"@,
        }
    }

    pub fn message(&self) -> (s: String)
        ensures
            s@ == self.spec_message(),
    {
        match self {
            ExecError::Connect(m) => m.clone(),
            ExecError::Canceled => "canceled".to_owned(),
            ExecError::Quic(m) => join2("quic: ", m.as_str()),
            ExecError::Other(m) => m.clone(),
            ExecError::Exit(code) => join2("exit status ", signed(*code).as_str()),
            ExecError::Killed => "signal: killed".to_owned(),
        }
    }

    /// The failure of a pipe as one of a command.
    pub fn from_pipe(e: PipeError) -> (r: ExecError)
        ensures
            r.spec_message() == e.spec_message(),
            r is Connect == e is Connect,
            r is Canceled == e is Canceled,
            r is Quic == e is Quic,
    {
        match e {
            PipeError::Connect(m) => ExecError::Connect(m),
            PipeError::Canceled => ExecError::Canceled,
            PipeError::Quic(m) => ExecError::Quic(m),
        }
    }
}

/// The failure to open a stream to the peer, which reads `msg`.
pub fn open_failure(canceled: bool, msg: String) -> (e: ExecError)
    ensures
        if canceled {
            e is Canceled
        } else {
            e is Quic && e->Quic_0@ == msg@
        },
{
    if canceled {
        ExecError::Canceled
    } else {
        ExecError::Quic(msg)
    }
}

/// The arguments to run a command with: the program and what follows it.
pub fn command_args(command: &str) -> (r: Result<Vec<String>, ExecError>)
    ensures
        match spec_split_command(command@) {
            Some(args) => if args.len() > 0 {
                r is Ok && crate::room::views_of(r->Ok_0@) == args
            } else {
                r is Err && r->Err_0 is Other && r->Err_0->Other_0@ == "empty command"@
            },
            None => r is Err && r->Err_0 is Other && r->Err_0->Other_0@ == "empty command"@,
        },
{
    match split_command(command) {
        Some(args) => {
            assert(crate::room::views_of(args@).len() == args@.len());
            if args.len() > 0 {
                Ok(args)
            } else {
                Err(ExecError::Other("empty command".to_owned()))
            }
        },
        None => Err(ExecError::Other("empty command".to_owned())),
    }
}

/// How a command ended.
#[derive(Debug)]
pub enum ChildStatus {
    /// With this status; 0 is success.
    Exited(i32),
    /// By a signal.
    Signaled,
    /// It could not be waited for.
    Unknown(String),
}

/// The failure of a command, by how it ended.
pub fn child_error(s: &ChildStatus) -> (r: Option<ExecError>)
    ensures
        match s {
            ChildStatus::Exited(code) => if *code == 0 {
                r is None
            } else {
                r == Some(ExecError::Exit(*code))
            },
            ChildStatus::Signaled => r == Some(ExecError::Killed),
            ChildStatus::Unknown(m) => r is Some && r->0 is Other && r->0->Other_0@ == "wait: "@
                + m@,
        },
{
    match s {
        ChildStatus::Exited(code) => if *code == 0 {
            None
        } else {
            Some(ExecError::Exit(*code))
        },
        ChildStatus::Signaled => Some(ExecError::Killed),
        ChildStatus::Unknown(m) => Some(ExecError::Other(join2("wait: ", m.as_str()))),
    }
}

/// What is logged of a command that failed.
pub fn exit_notice(e: &ExecError) -> (s: String)
    ensures
        s@ == "Command exited: "@ + e.spec_message(),
{
    join2("Command exited: ", e.message().as_str())
}

/// The result of a command: the failure to copy its output, else its own.
pub fn command_result(child: Option<ExecError>, output: Option<String>) -> (r: Result<
    (),
    ExecError,
>)
    ensures
        match output {
            Some(m) => r is Err && r->Err_0 is Other && r->Err_0->Other_0@ == "stdout copy: "@ + m@,
            None => match child {
                Some(e) => r == Err::<(), ExecError>(e),
                None => r == Ok::<(), ExecError>(()),
            },
        },
{
    match output {
        Some(m) => Err(ExecError::Other(join2("stdout copy: ", m.as_str()))),
        None => match child {
            Some(e) => Err(e),
            None => Ok(()),
        },
    }
}

/// The drain time in use.
pub fn drain_timeout(env: &Env) -> (d: Duration)
    requires
        env.wf(),
    ensures
        d == crate::clock::spec_from_millis(
            crate::env::spec_env_duration_ms(
                crate::env::spec_var(env@, "QVOLE_EXEC_DRAIN_TIMEOUT_MS"@),
                EXEC_DRAIN_TIMEOUT_MS,
            ) as nat,
        ),
{
    Duration::from_millis(env_duration_ms(env, "QVOLE_EXEC_DRAIN_TIMEOUT_MS", EXEC_DRAIN_TIMEOUT_MS))
}

/// An argument in single quotation marks.
pub open spec fn quote_arg(a: Seq<char>) -> Seq<char> {
    seq!['\''] + a + seq!['\'']
}

/// Arguments in single quotation marks, with a space before each.
pub open spec fn quote_args(args: Seq<Seq<char>>) -> Seq<char>
    decreases args.len(),
{
    if args.len() == 0 {
        Seq::empty()
    } else {
        quote_args(args.drop_last()) + seq![' '] + quote_arg(args.last())
    }
}

proof fn lemma_split_concat(from: Split, a: Seq<char>, b: Seq<char>)
    ensures
        split_after(from, a + b) == split_after(split_after(from, a), b),
    decreases b.len(),
{
    if b.len() == 0 {
        assert(a + b =~= a);
    } else {
        lemma_split_concat(from, a, b.drop_last());
        assert((a + b).drop_last() =~= a + b.drop_last());
        assert((a + b).last() == b.last());
    }
}

proof fn lemma_split_one(from: Split, c: char)
    ensures
        split_after(from, seq![c]) == from.next(c),
{
    assert(seq![c].drop_last() =~= Seq::empty());
    assert(split_after(from, Seq::empty()) == from);
}

proof fn lemma_split_quoted(from: Split, a: Seq<char>)
    requires
        !a.contains('\''),
        from.quote == Some('\''),
    ensures
        split_after(from, a) == (Split { current: from.current + a, ..from }),
    decreases a.len(),
{
    if a.len() == 0 {
        assert(from.current + a =~= from.current);
    } else {
        assert forall|i: int| 0 <= i < a.drop_last().len() implies a.drop_last()[i] != '\'' by {
            assert(a.contains(a[i]));
        }
        lemma_split_quoted(from, a.drop_last());
        assert(a.contains(a.last()));
        assert(from.current + a =~= (from.current + a.drop_last()).push(a.last()));
    }
}

proof fn lemma_split_args(args: Seq<Seq<char>>)
    requires
        forall|i: int| 0 <= i < args.len() ==> !(#[trigger] args[i]).contains('\''),
    ensures
        split_after(split_start(), quote_args(args)) == (Split {
            args: if args.len() == 0 {
                args
            } else {
                args.drop_last()
            },
            current: if args.len() == 0 {
                Seq::empty()
            } else {
                args.last()
            },
            started: args.len() > 0,
            quote: None,
        }),
    decreases args.len(),
{
    if args.len() > 0 {
        let t = args.drop_last();
        let a = args.last();
        assert forall|i: int| 0 <= i < t.len() implies !(#[trigger] t[i]).contains('\'') by {
            assert(t[i] == args[i]);
        }
        lemma_split_args(t);
        let s0 = split_after(split_start(), quote_args(t));
        let s1 = s0.next(' ');
        let s2 = s1.next('\'');
        let s3 = split_after(s2, a);
        lemma_split_one(s0, ' ');
        lemma_split_one(s1, '\'');
        assert(!args[args.len() - 1].contains('\''));
        lemma_split_quoted(s2, a);
        lemma_split_one(s3, '\'');
        lemma_split_concat(s1, seq!['\''], a);
        lemma_split_concat(s1, seq!['\''] + a, seq!['\'']);
        lemma_split_concat(split_start(), quote_args(t), seq![' ']);
        lemma_split_concat(split_start(), quote_args(t) + seq![' '], quote_arg(a));
        if t.len() > 0 {
            assert(t.drop_last().push(t.last()) =~= t);
        }
        assert(s1.args =~= t);
        assert(s2.current + a =~= a);
        assert(quote_args(args) == quote_args(t) + seq![' '] + quote_arg(a));
    } else {
        assert(args =~= Seq::empty());
    }
}

/// Arguments in single quotation marks are read back as they are, blanks,
/// double quotation marks and empty ones included.
pub proof fn law_quoted_args_read_back(args: Seq<Seq<char>>)
    requires
        forall|i: int| 0 <= i < args.len() ==> !(#[trigger] args[i]).contains('\''),
    ensures
        spec_split_command(quote_args(args)) == Some(args),
{
    lemma_split_args(args);
    if args.len() > 0 {
        assert(args.drop_last().push(args.last()) =~= args);
    }
}

/// No argument holds a blank or a quotation mark.
pub open spec fn plain_args(args: Seq<Seq<char>>) -> bool {
    forall|i: int, j: int|
        0 <= i < args.len() && 0 <= j < args[i].len() ==> !is_blank(#[trigger] args[i][j])
            && args[i][j] != '\'' && args[i][j] != '"'
}

/// A text without quotation marks is always split, and into arguments that
/// are not empty and hold no blanks.
pub proof fn law_plain_text_splits(s: Seq<char>)
    requires
        !s.contains('\''),
        !s.contains('"'),
    ensures
        ({
            let t = split_after(split_start(), s);
            &&& t.quote is None
            &&& plain_args(t.args)
            &&& plain_args(seq![t.current])
            &&& t.started == (t.current.len() > 0)
            &&& forall|i: int| 0 <= i < t.args.len() ==> (#[trigger] t.args[i]).len() > 0
        }),
        spec_split_command(s) is Some,
        plain_args(spec_split_command(s)->0),
        forall|i: int|
            0 <= i < spec_split_command(s)->0.len() ==> (#[trigger] spec_split_command(
                s,
            )->0[i]).len() > 0,
    decreases s.len(),
{
    if s.len() > 0 {
        let p = s.drop_last();
        assert forall|i: int| 0 <= i < p.len() implies p[i] != '\'' && p[i] != '"' by {
            assert(s.contains(s[i]));
        }
        law_plain_text_splits(p);
        assert(s.contains(s.last()));
        let a = split_after(split_start(), p);
        let t = split_after(split_start(), s);
        assert(t == a.next(s.last()));
        assert forall|i: int, j: int| 0 <= i < 1 && 0 <= j < seq![t.current][i].len() implies
            !is_blank(#[trigger] seq![t.current][i][j]) && seq![t.current][i][j] != '\''
            && seq![t.current][i][j] != '"' by {
            if j < a.current.len() && t.current.len() > 0 {
                assert(seq![a.current][0][j] == t.current[j]);
            }
        }
        assert forall|i: int, j: int| 0 <= i < t.args.len() && 0 <= j < t.args[i].len() implies
            !is_blank(#[trigger] t.args[i][j]) && t.args[i][j] != '\'' && t.args[i][j] != '"' by {
            if i == a.args.len() {
                assert(seq![a.current][0][j] == t.args[i][j]);
            } else {
                assert(t.args[i] == a.args[i]);
                assert(a.args[i][j] == t.args[i][j]);
            }
        }
        assert forall|i: int| 0 <= i < t.args.len() implies (#[trigger] t.args[i]).len() > 0 by {
            if i < a.args.len() {
                assert(t.args[i] == a.args[i]);
            }
        }
    }
    let t = split_after(split_start(), s);
    let r = spec_split_command(s)->0;
    assert forall|i: int, j: int| 0 <= i < r.len() && 0 <= j < r[i].len() implies
        !is_blank(#[trigger] r[i][j]) && r[i][j] != '\'' && r[i][j] != '"' by {
        if i == t.args.len() {
            assert(seq![t.current][0][j] == r[i][j]);
        } else {
            assert(t.args[i] == r[i]);
            assert(t.args[i][j] == r[i][j]);
        }
    }
    assert forall|i: int| 0 <= i < r.len() implies (#[trigger] r[i]).len() > 0 by {
        if i < t.args.len() {
            assert(t.args[i] == r[i]);
        }
    }
}

/// A piece of an argument: bare characters, or characters in quotation marks.
pub enum Piece {
    Bare(Seq<char>),
    Quoted(char, Seq<char>),
}

impl Piece {
    /// A bare piece has a character, and no blanks and quotation marks; a
    /// quoted one does not hold its own mark.
    pub open spec fn valid(self) -> bool {
        match self {
            Piece::Bare(s) => s.len() > 0 && forall|i: int|
                0 <= i < s.len() ==> #[trigger] s[i] != ' ' && s[i] != '\t' && s[i] != '\'' && s[i]
                    != '"',
            Piece::Quoted(q, s) => (q == '\'' || q == '"') && forall|i: int|
                0 <= i < s.len() ==> #[trigger] s[i] != q,
        }
    }

    /// The piece as it is written.
    pub open spec fn text(self) -> Seq<char> {
        match self {
            Piece::Bare(s) => s,
            Piece::Quoted(q, s) => seq![q] + s + seq![q],
        }
    }

    /// What it stands for.
    pub open spec fn value(self) -> Seq<char> {
        match self {
            Piece::Bare(s) => s,
            Piece::Quoted(_, s) => s,
        }
    }
}

/// An argument as it is written: its pieces, with nothing between them.
pub open spec fn word_text(w: Seq<Piece>) -> Seq<char>
    decreases w.len(),
{
    if w.len() == 0 {
        Seq::empty()
    } else {
        word_text(w.drop_last()) + w.last().text()
    }
}

/// What an argument stands for: what its pieces do, in a row.
pub open spec fn word_value(w: Seq<Piece>) -> Seq<char>
    decreases w.len(),
{
    if w.len() == 0 {
        Seq::empty()
    } else {
        word_value(w.drop_last()) + w.last().value()
    }
}

/// An argument has a piece, and valid ones only.
pub open spec fn valid_word(w: Seq<Piece>) -> bool {
    w.len() > 0 && forall|i: int| 0 <= i < w.len() ==> (#[trigger] w[i]).valid()
}

/// Spaces and tabs.
pub open spec fn all_blank(s: Seq<char>) -> bool {
    forall|i: int| 0 <= i < s.len() ==> #[trigger] s[i] == ' ' || s[i] == '\t'
}

/// A command line: blanks, and arguments with the blanks behind each.
pub open spec fn line_text(lead: Seq<char>, ws: Seq<(Seq<Piece>, Seq<char>)>) -> Seq<char>
    decreases ws.len(),
{
    if ws.len() == 0 {
        lead
    } else {
        line_text(lead, ws.drop_last()) + word_text(ws.last().0) + ws.last().1
    }
}

/// The arguments are valid, and there are blanks between them; behind the last
/// one there may be none.
pub open spec fn valid_line(lead: Seq<char>, ws: Seq<(Seq<Piece>, Seq<char>)>) -> bool {
    &&& all_blank(lead)
    &&& forall|i: int|
        0 <= i < ws.len() ==> valid_word((#[trigger] ws[i]).0) && all_blank(ws[i].1) && (i
            < ws.len() - 1 ==> ws[i].1.len() > 0)
}

/// What the arguments of a line stand for.
pub open spec fn line_values(ws: Seq<(Seq<Piece>, Seq<char>)>) -> Seq<Seq<char>> {
    Seq::new(ws.len(), |i: int| word_value(ws[i].0))
}

proof fn lemma_split_inside(from: Split, q: char, s: Seq<char>)
    requires
        from.quote == Some(q),
        forall|i: int| 0 <= i < s.len() ==> #[trigger] s[i] != q,
    ensures
        split_after(from, s) == (Split { current: from.current + s, ..from }),
    decreases s.len(),
{
    if s.len() == 0 {
        assert(from.current + s =~= from.current);
    } else {
        let p = s.drop_last();
        assert forall|i: int| 0 <= i < p.len() implies #[trigger] p[i] != q by {
            assert(p[i] == s[i]);
        }
        lemma_split_inside(from, q, p);
        assert(s[s.len() - 1] != q);
        assert((from.current + p).push(s.last()) =~= from.current + s);
    }
}

proof fn lemma_split_bare(from: Split, s: Seq<char>)
    requires
        from.quote is None,
        forall|i: int|
            0 <= i < s.len() ==> #[trigger] s[i] != ' ' && s[i] != '\t' && s[i] != '\'' && s[i]
                != '"',
    ensures
        split_after(from, s) == (Split {
            current: from.current + s,
            started: from.started || s.len() > 0,
            ..from
        }),
    decreases s.len(),
{
    if s.len() == 0 {
        assert(from.current + s =~= from.current);
    } else {
        let p = s.drop_last();
        assert forall|i: int| 0 <= i < p.len() implies #[trigger] p[i] != ' ' && p[i] != '\t'
            && p[i] != '\'' && p[i] != '"' by {
            assert(p[i] == s[i]);
        }
        lemma_split_bare(from, p);
        assert(s[s.len() - 1] != ' ');
        assert((from.current + p).push(s.last()) =~= from.current + s);
    }
}

proof fn lemma_split_piece(from: Split, p: Piece)
    requires
        from.quote is None,
        p.valid(),
    ensures
        split_after(from, p.text()) == (Split {
            current: from.current + p.value(),
            started: true,
            ..from
        }),
{
    match p {
        Piece::Bare(s) => {
            lemma_split_bare(from, s);
        },
        Piece::Quoted(q, s) => {
            lemma_split_concat(from, seq![q] + s, seq![q]);
            lemma_split_concat(from, seq![q], s);
            lemma_split_one(from, q);
            let opened = from.next(q);
            lemma_split_inside(opened, q, s);
            lemma_split_one(split_after(opened, s), q);
        },
    }
}

proof fn lemma_split_word(from: Split, w: Seq<Piece>)
    requires
        from.quote is None,
        forall|i: int| 0 <= i < w.len() ==> (#[trigger] w[i]).valid(),
    ensures
        split_after(from, word_text(w)) == (Split {
            current: from.current + word_value(w),
            started: from.started || w.len() > 0,
            ..from
        }),
    decreases w.len(),
{
    if w.len() == 0 {
        assert(from.current + word_value(w) =~= from.current);
    } else {
        let v = w.drop_last();
        assert forall|i: int| 0 <= i < v.len() implies (#[trigger] v[i]).valid() by {
            assert(v[i] == w[i]);
        }
        assert(w[w.len() - 1].valid());
        lemma_split_word(from, v);
        lemma_split_concat(from, word_text(v), w.last().text());
        lemma_split_piece(split_after(from, word_text(v)), w.last());
        assert(from.current + word_value(v) + w.last().value() =~= from.current + word_value(w));
    }
}

proof fn lemma_split_blanks(from: Split, s: Seq<char>)
    requires
        from.quote is None,
        !from.started ==> from.current.len() == 0,
        all_blank(s),
    ensures
        split_after(from, s) == (if s.len() > 0 && from.started {
            Split {
                args: from.args.push(from.current),
                current: Seq::empty(),
                started: false,
                quote: None,
            }
        } else {
            from
        }),
    decreases s.len(),
{
    if s.len() > 0 {
        let p = s.drop_last();
        assert forall|i: int| 0 <= i < p.len() implies #[trigger] p[i] == ' ' || p[i] == '\t' by {
            assert(p[i] == s[i]);
        }
        assert(s[s.len() - 1] == ' ' || s[s.len() - 1] == '\t');
        lemma_split_blanks(from, p);
    }
}

/// The state after a line.
proof fn lemma_split_line(lead: Seq<char>, ws: Seq<(Seq<Piece>, Seq<char>)>)
    requires
        valid_line(lead, ws),
    ensures
        ({
            let t = split_after(split_start(), line_text(lead, ws));
            let all = line_values(ws);
            &&& t.quote is None
            &&& if ws.len() > 0 && ws.last().1.len() == 0 {
                t.started && t.args == all.drop_last() && t.current == all.last()
            } else {
                !t.started && t.args == all && t.current.len() == 0
            }
        }),
    decreases ws.len(),
{
    let all = line_values(ws);
    if ws.len() == 0 {
        lemma_split_blanks(split_start(), lead);
        assert(all =~= Seq::empty());
    } else {
        let v = ws.drop_last();
        let (w, gap) = ws.last();
        assert forall|i: int| 0 <= i < v.len() implies valid_word((#[trigger] v[i]).0) && all_blank(
            v[i].1,
        ) && (i < v.len() - 1 ==> v[i].1.len() > 0) by {
            assert(v[i] == ws[i]);
        }
        if v.len() > 0 {
            assert(v.last() == ws[ws.len() - 2]);
        }
        assert(ws[ws.len() - 1] == ws.last());
        lemma_split_line(lead, v);
        let head = line_text(lead, v);
        let s1 = split_after(split_start(), head);
        assert(all.drop_last() =~= line_values(v));
        lemma_split_concat(split_start(), head + word_text(w), gap);
        lemma_split_concat(split_start(), head, word_text(w));
        lemma_split_word(s1, w);
        assert(s1.current + word_value(w) =~= word_value(w));
        lemma_split_blanks(split_after(s1, word_text(w)), gap);
        assert(all.drop_last().push(all.last()) =~= all);
    }
}

/// Only a blank outside of quotation marks separates arguments, and only the
/// marks themselves are left out: a line of arguments, each of bare and quoted
/// pieces with nothing between them, is split into what these arguments stand
/// for. A quotation mark in the middle of a word does not end it.
pub proof fn law_split_into_arguments(lead: Seq<char>, ws: Seq<(Seq<Piece>, Seq<char>)>)
    requires
        valid_line(lead, ws),
    ensures
        spec_split_command(line_text(lead, ws)) == Some(line_values(ws)),
{
    lemma_split_line(lead, ws);
    let all = line_values(ws);
    if ws.len() > 0 {
        assert(all.drop_last().push(all.last()) =~= all);
    }
}

/// A quotation that is not closed makes the line invalid, whatever comes before
/// it.
pub proof fn law_open_quotation_refused(
    lead: Seq<char>,
    ws: Seq<(Seq<Piece>, Seq<char>)>,
    q: char,
    rest: Seq<char>,
)
    requires
        valid_line(lead, ws),
        q == '\'' || q == '"',
        forall|i: int| 0 <= i < rest.len() ==> #[trigger] rest[i] != q,
    ensures
        spec_split_command(line_text(lead, ws) + seq![q] + rest) is None,
{
    let head = line_text(lead, ws);
    lemma_split_line(lead, ws);
    lemma_split_concat(split_start(), head + seq![q], rest);
    lemma_split_concat(split_start(), head, seq![q]);
    let s1 = split_after(split_start(), head);
    lemma_split_one(s1, q);
    lemma_split_inside(s1.next(q), q, rest);
}

} // verus!
