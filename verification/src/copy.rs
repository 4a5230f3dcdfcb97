//! Copying between two streams: what a failure means, and when a pair of
//! copies is done.
use vstd::prelude::*;

use crate::text::join2;

verus! {

/// Pause after a connection was closed, so that the closing frame is sent.
pub const CLOSE_FLUSH_DELAY_MS: u64 = 50;

/// What the failure of a copy means.
#[derive(Clone, Copy, Debug, PartialEq, Eq, Structural)]
pub enum CopyErrorKind {
    /// An expected end; nothing is logged.
    Benign,
    /// The peer is gone.
    Disconnect,
    /// A deadline has passed.
    Timeout,
    /// Anything else.
    Error,
}

/// How a connection ended.
#[derive(Clone, Copy, Debug, PartialEq, Eq, Structural)]
pub enum ConnFault {
    /// The peer's application closed it, with this code.
    ApplicationClosed(u64),
    /// The peer's transport closed it.
    ConnectionClosed,
    /// The peer broke the protocol.
    TransportError,
    /// The peer does not know the connection any more.
    Reset,
    /// Nothing came for too long.
    TimedOut,
    /// This side closed it.
    LocallyClosed,
    VersionMismatch,
    CidsExhausted,
}

/// Why a stream could not be read.
#[derive(Clone, Copy, Debug, PartialEq, Eq, Structural)]
pub enum ReadFault {
    Reset,
    ConnectionLost(ConnFault),
    ClosedStream,
    IllegalOrderedRead,
    ZeroRttRejected,
}

/// Why a stream could not be written to.
#[derive(Clone, Copy, Debug, PartialEq, Eq, Structural)]
pub enum WriteFault {
    Stopped,
    ConnectionLost(ConnFault),
    ClosedStream,
    ZeroRttRejected,
}

/// Why an operation on a stream or a local file failed.
#[derive(Clone, Copy, Debug, PartialEq, Eq, Structural)]
pub enum IoFault {
    Read(ReadFault),
    Write(WriteFault),
    Connection(ConnFault),
    TimedOut,
    ConnectionAborted,
    BrokenPipe,
    Other,
}

/// A close with code 0 and a close by this side are expected; the peer's other
/// ways to end a connection are a disconnect.
pub open spec fn spec_conn_close_kind(err: ConnFault) -> CopyErrorKind {
    match err {
        ConnFault::ApplicationClosed(code) => if code == 0 {
            CopyErrorKind::Benign
        } else {
            CopyErrorKind::Disconnect
        },
        ConnFault::ConnectionClosed
        | ConnFault::TransportError
        | ConnFault::Reset
        | ConnFault::TimedOut => CopyErrorKind::Disconnect,
        ConnFault::LocallyClosed => CopyErrorKind::Benign,
        ConnFault::VersionMismatch | ConnFault::CidsExhausted => CopyErrorKind::Error,
    }
}

/// What the end of a connection means.
pub fn conn_close_kind(err: &ConnFault) -> (k: CopyErrorKind)
    ensures
        k == spec_conn_close_kind(*err),
{
    match *err {
        ConnFault::ApplicationClosed(code) => if code == 0 {
            CopyErrorKind::Benign
        } else {
            CopyErrorKind::Disconnect
        },
        ConnFault::ConnectionClosed
        | ConnFault::TransportError
        | ConnFault::Reset
        | ConnFault::TimedOut => CopyErrorKind::Disconnect,
        ConnFault::LocallyClosed => CopyErrorKind::Benign,
        ConnFault::VersionMismatch | ConnFault::CidsExhausted => CopyErrorKind::Error,
    }
}

/// A stream closed here is expected; one that the peer reset is an error; a
/// lost connection counts as it ended. Of local failures, a passed deadline
/// and a closed end are told apart from the rest.
pub open spec fn spec_copy_error_kind(err: IoFault) -> CopyErrorKind {
    match err {
        IoFault::Read(ReadFault::ConnectionLost(c)) => spec_conn_close_kind(c),
        IoFault::Read(ReadFault::ClosedStream) => CopyErrorKind::Benign,
        IoFault::Read(_) => CopyErrorKind::Error,
        IoFault::Write(WriteFault::ConnectionLost(c)) => spec_conn_close_kind(c),
        IoFault::Write(WriteFault::ClosedStream) => CopyErrorKind::Benign,
        IoFault::Write(_) => CopyErrorKind::Error,
        IoFault::Connection(c) => spec_conn_close_kind(c),
        IoFault::TimedOut => CopyErrorKind::Timeout,
        IoFault::ConnectionAborted | IoFault::BrokenPipe => CopyErrorKind::Benign,
        IoFault::Other => CopyErrorKind::Error,
    }
}

/// What the failure of a copy means.
pub fn copy_error_kind(err: &IoFault) -> (k: CopyErrorKind)
    ensures
        k == spec_copy_error_kind(*err),
{
    match *err {
        IoFault::Read(r) => match r {
            ReadFault::Reset | ReadFault::IllegalOrderedRead | ReadFault::ZeroRttRejected => {
                CopyErrorKind::Error
            },
            ReadFault::ConnectionLost(c) => conn_close_kind(&c),
            ReadFault::ClosedStream => CopyErrorKind::Benign,
        },
        IoFault::Write(w) => match w {
            WriteFault::Stopped | WriteFault::ZeroRttRejected => CopyErrorKind::Error,
            WriteFault::ConnectionLost(c) => conn_close_kind(&c),
            WriteFault::ClosedStream => CopyErrorKind::Benign,
        },
        IoFault::Connection(c) => conn_close_kind(&c),
        IoFault::TimedOut => CopyErrorKind::Timeout,
        IoFault::ConnectionAborted | IoFault::BrokenPipe => CopyErrorKind::Benign,
        IoFault::Other => CopyErrorKind::Error,
    }
}

/// A line to log, at the level of errors or only for debugging.
#[derive(Debug)]
pub struct CopyNotice {
    pub error: bool,
    pub text: String,
}

/// What is logged of a copy that failed: nothing of an expected end.
pub open spec fn spec_copy_notice(
    dir: Seq<char>,
    err: IoFault,
    msg: Seq<char>,
) -> Option<(bool, Seq<char>)> {
    match spec_copy_error_kind(err) {
        CopyErrorKind::Timeout => Some((false, "Copy timeout ("@ + dir + "): "@ + msg)),
        CopyErrorKind::Disconnect => Some((false, "Copy disconnect ("@ + dir + "): "@ + msg)),
        CopyErrorKind::Error => Some((true, "Copy error ("@ + dir + "): "@ + msg)),
        CopyErrorKind::Benign => None,
    }
}

/// What to log when the copy in direction `dir` failed with `err`, which reads
/// `msg`.
pub fn copy_notice(dir: &str, err: &IoFault, msg: &str) -> (r: Option<CopyNotice>)
    ensures
        match spec_copy_notice(dir@, *err, msg@) {
            Some(n) => r is Some && r->0.error == n.0 && r->0.text@ == n.1,
            None => r is None,
        },
{
    let kind = copy_error_kind(err);
    let head = match kind {
        CopyErrorKind::Benign => {
            return None;
        },
        CopyErrorKind::Timeout => "Copy timeout (",
        CopyErrorKind::Disconnect => "Copy disconnect (",
        CopyErrorKind::Error => "Copy error (",
    };
    let mut text = join2(head, dir);
    text.push_str("): ");
    text.push_str(msg);
    Some(CopyNotice { error: kind == CopyErrorKind::Error, text })
}

/// The peer ended or lost the connection.
pub open spec fn spec_is_peer_disconnect(err: ConnFault) -> bool {
    err is ApplicationClosed || err is ConnectionClosed || err is TransportError || err is Reset
        || err is TimedOut
}

/// Whether the peer ended or lost the connection, as opposed to this side.
pub fn is_peer_disconnect(err: &ConnFault) -> (b: bool)
    ensures
        b == spec_is_peer_disconnect(*err),
{
    match *err {
        ConnFault::ApplicationClosed(_)
        | ConnFault::ConnectionClosed
        | ConnFault::TransportError
        | ConnFault::Reset
        | ConnFault::TimedOut => true,
        ConnFault::LocallyClosed | ConnFault::VersionMismatch | ConnFault::CidsExhausted => false,
    }
}

/// The warning that the peer is gone, with the reason `msg` when debugging;
/// none when it is not.
pub fn log_disconnect(err: &ConnFault, msg: &str, debug: bool) -> (r: Option<String>)
    ensures
        if spec_is_peer_disconnect(*err) {
            r is Some && r->0@ == if debug {
                "Remote host disconnected: "@ + msg@
            } else {
                "Remote host disconnected"@
            }
        } else {
            r is None
        },
{
    if !is_peer_disconnect(err) {
        None
    } else if debug {
        Some(join2("Remote host disconnected: ", msg))
    } else {
        Some("Remote host disconnected".to_owned())
    }
}

/// Every disconnect is the peer's; what the peer does is a disconnect, or a
/// close with code 0.
pub proof fn law_disconnect_is_peers(err: ConnFault)
    ensures
        spec_conn_close_kind(err) == CopyErrorKind::Disconnect ==> spec_is_peer_disconnect(err),
        spec_is_peer_disconnect(err) ==> spec_conn_close_kind(err) == CopyErrorKind::Disconnect
            || err == ConnFault::ApplicationClosed(0),
        spec_conn_close_kind(err) != CopyErrorKind::Timeout,
{
}

/// A copy ends the same way whichever of its two sides loses the connection.
pub proof fn law_sides_agree(c: ConnFault)
    ensures
        spec_copy_error_kind(IoFault::Read(ReadFault::ConnectionLost(c))) == spec_copy_error_kind(
            IoFault::Write(WriteFault::ConnectionLost(c)),
        ),
        spec_copy_error_kind(IoFault::Read(ReadFault::ConnectionLost(c))) == spec_copy_error_kind(
            IoFault::Connection(c),
        ),
{
}

/// What came of one step of a copy.
#[derive(Clone, Copy, Debug, PartialEq, Eq, Structural)]
pub enum CopyEvent {
    /// The copy was told to stop.
    Stopped,
    /// So many bytes were read.
    Read(usize),
    /// Reading failed.
    Failed,
}

/// What a copy does next.
#[derive(Clone, Copy, Debug, PartialEq, Eq, Structural)]
pub enum CopyAction {
    /// End without an error.
    Finish,
    /// End with the error.
    Fail,
    /// Note the activity and write so many bytes.
    Write(usize),
}

/// A copy ends when it is told to, at the end of what it reads, and at the
/// first failure; until then it writes what it has read.
pub fn copy_step(event: CopyEvent) -> (a: CopyAction)
    ensures
        a == match event {
            CopyEvent::Stopped => CopyAction::Finish,
            CopyEvent::Failed => CopyAction::Fail,
            CopyEvent::Read(n) => if n == 0 {
                CopyAction::Finish
            } else {
                CopyAction::Write(n)
            },
        },
{
    match event {
        CopyEvent::Stopped => CopyAction::Finish,
        CopyEvent::Failed => CopyAction::Fail,
        CopyEvent::Read(n) => if n == 0 {
            CopyAction::Finish
        } else {
            CopyAction::Write(n)
        },
    }
}

/// Two copies that run together, in opposite directions.
#[derive(Clone, Copy, Debug, PartialEq, Eq, Structural)]
pub struct Pair {
    pub out_done: bool,
    pub in_done: bool,
    /// The end of the first of the two was noted.
    pub fired: bool,
}

/// What follows from the state of a pair of copies.
#[derive(Clone, Copy, Debug, PartialEq, Eq, Structural)]
pub struct PairAction {
    /// Close both ends: the first copy is done.
    pub interrupt: bool,
    /// Stop the outbound copy, which may be waiting for local input.
    pub stop_out: bool,
    /// Both copies are done.
    pub finished: bool,
}

impl Pair {
    pub fn new() -> (p: Pair)
        ensures
            !p.out_done,
            !p.in_done,
            !p.fired,
    {
        Pair { out_done: false, in_done: false, fired: false }
    }

    /// The pair after it was seen which copies are done.
    pub open spec fn after(self, out: bool, inn: bool) -> Pair {
        Pair {
            out_done: self.out_done || out,
            in_done: self.in_done || inn,
            fired: self.fired || self.out_done || out || self.in_done || inn,
        }
    }

    /// What is to be done then.
    pub open spec fn action(self, out: bool, inn: bool) -> PairAction {
        let p = self.after(out, inn);
        PairAction {
            interrupt: p.fired && !self.fired,
            stop_out: p.in_done && !p.out_done,
            finished: p.in_done && p.out_done,
        }
    }

    /// Notes which copies have ended, and says what to do.
    pub fn step(&mut self, out: bool, inn: bool) -> (a: PairAction)
        ensures
            *final(self) == old(self).after(out, inn),
            a == old(self).action(out, inn),
    {
        self.out_done = self.out_done || out;
        self.in_done = self.in_done || inn;
        let interrupt = (self.out_done || self.in_done) && !self.fired;
        if interrupt {
            self.fired = true;
        }
        PairAction {
            interrupt,
            stop_out: self.in_done && !self.out_done,
            finished: self.in_done && self.out_done,
        }
    }
}

/// What a pair has been asked to do after the given sightings.
pub open spec fn interrupts(p: Pair, seen: Seq<(bool, bool)>) -> nat
    decreases seen.len(),
{
    if seen.len() == 0 {
        0
    } else {
        let (out, inn) = seen[0];
        interrupts(p.after(out, inn), seen.drop_first()) + (if p.action(out, inn).interrupt {
            1nat
        } else {
            0nat
        })
    }
}

/// A pair is interrupted once at most, and once exactly when one of its
/// copies ends.
pub proof fn law_interrupted_once(p: Pair, seen: Seq<(bool, bool)>)
    requires
        p.fired == (p.out_done || p.in_done),
    ensures
        interrupts(p, seen) == if !p.fired && exists|i: int|
            0 <= i < seen.len() && (#[trigger] seen[i]).0 || 0 <= i < seen.len() && seen[i].1 {
            1nat
        } else {
            0nat
        },
    decreases seen.len(),
{
    if seen.len() > 0 {
        let (out, inn) = seen[0];
        let t = seen.drop_first();
        law_interrupted_once(p.after(out, inn), t);
        assert forall|i: int| 0 <= i < t.len() implies t[i] == #[trigger] seen[i + 1] by {}
        if !p.fired && !out && !inn {
            if exists|i: int|
                0 <= i < seen.len() && (#[trigger] seen[i]).0 || 0 <= i < seen.len() && seen[i].1 {
                let i = choose|i: int|
                    0 <= i < seen.len() && (#[trigger] seen[i]).0 || 0 <= i < seen.len()
                        && seen[i].1;
                assert(t[i - 1] == seen[i]);
            }
            if exists|i: int|
                0 <= i < t.len() && (#[trigger] t[i]).0 || 0 <= i < t.len() && t[i].1 {
                let i = choose|i: int|
                    0 <= i < t.len() && (#[trigger] t[i]).0 || 0 <= i < t.len() && t[i].1;
                assert(seen[i + 1] == t[i]);
            }
        } else if !p.fired {
            assert(seen[0].0 || seen[0].1);
        }
    }
}

} // verus!
