//! Bridging standard input and output to the peer: errors and decisions.
use vstd::prelude::*;

use crate::copy::{conn_close_kind, log_disconnect, spec_conn_close_kind, ConnFault, CopyErrorKind};
use crate::text::join2;

verus! {

/// Pause between the end of the copies and the close of the connection.
pub const PIPE_FINISH_DELAY_MS: u64 = 500;

/// How long the outbound copy may go on after the inbound one has ended.
pub const PIPE_CLOSE_GRACE_MS: u64 = 5000;

/// How a pipe failed.
#[derive(Debug)]
pub enum PipeError {
    /// The peers could not connect.
    Connect(String),
    Canceled,
    Quic(String),
}

impl PipeError {
    /// The text of an error.
    pub open spec fn spec_message(&self) -> Seq<char> {
        match self {
            PipeError::Connect(m) => m@,
            PipeError::Canceled => "canceled"@,
            PipeError::Quic(m) => "quic: "@ + m@,
        }
    }

    pub fn message(&self) -> (s: String)
        ensures
            s@ == self.spec_message(),
    {
        match self {
            PipeError::Connect(m) => m.clone(),
            PipeError::Canceled => "canceled".to_owned(),
            PipeError::Quic(m) => join2("quic: ", m.as_str()),
        }
    }
}

/// Waiting for the peer's stream ended without one.
#[derive(Debug)]
pub enum Unaccepted {
    /// This side was told to stop.
    Canceled,
    /// The connection ended; the text says how.
    Closed(ConnFault, String),
}

/// What came of waiting, and the warning to log.
#[derive(Debug)]
pub struct AcceptEnd {
    pub result: Result<(), PipeError>,
    pub warning: Option<String>,
}

/// An expected end and a disconnect of the peer are no failure.
pub open spec fn spec_close_is_failure(err: ConnFault) -> bool {
    spec_conn_close_kind(err) == CopyErrorKind::Error || spec_conn_close_kind(err)
        == CopyErrorKind::Timeout
}

/// The end of a pipe that got no stream from the peer. A disconnect is logged.
/// A stop is a failure only where `cancel_fails`.
pub fn accept_end(u: Unaccepted, debug: bool, cancel_fails: bool) -> (r: AcceptEnd)
    ensures
        match u {
            Unaccepted::Canceled => r.warning is None && if cancel_fails {
                r.result is Err && r.result->Err_0 is Canceled
            } else {
                r.result is Ok
            },
            Unaccepted::Closed(e, msg) => {
                &&& if spec_close_is_failure(e) {
                    r.result is Err && r.result->Err_0 is Quic && r.result->Err_0->Quic_0@ == msg@
                } else {
                    r.result is Ok
                }
                &&& if spec_conn_close_kind(e) == CopyErrorKind::Disconnect {
                    r.warning is Some && r.warning->0@ == if debug {
                        "Remote host disconnected: "@ + msg@
                    } else {
                        "Remote host disconnected"@
                    }
                } else {
                    r.warning is None
                }
            },
        },
{
    match u {
        Unaccepted::Canceled => {
            if cancel_fails {
                AcceptEnd { result: Err(PipeError::Canceled), warning: None }
            } else {
                AcceptEnd { result: Ok(()), warning: None }
            }
        },
        Unaccepted::Closed(e, msg) => match conn_close_kind(&e) {
            CopyErrorKind::Benign => AcceptEnd { result: Ok(()), warning: None },
            CopyErrorKind::Disconnect => AcceptEnd {
                result: Ok(()),
                warning: log_disconnect(&e, msg.as_str(), debug),
            },
            _ => AcceptEnd { result: Err(PipeError::Quic(msg)), warning: None },
        },
    }
}

/// The result of a bridge that has ended: a failure just when this side was
/// told to stop.
pub fn bridge_result(canceled: bool) -> (r: Result<(), PipeError>)
    ensures
        if canceled {
            r is Err && r->Err_0 is Canceled
        } else {
            r is Ok
        },
{
    if canceled {
        Err(PipeError::Canceled)
    } else {
        Ok(())
    }
}

/// A peer that leaves, politely or not, does not make a pipe fail.
pub proof fn law_peer_may_leave(err: ConnFault)
    requires
        crate::copy::spec_is_peer_disconnect(err),
    ensures
        !spec_close_is_failure(err),
{
}

} // verus!
