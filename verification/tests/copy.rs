//! What the failure of a copy means, and pairs of copies.
use qvole::copy::{
    conn_close_kind, copy_error_kind, copy_notice, copy_step, is_peer_disconnect, log_disconnect,
    ConnFault, CopyAction, CopyErrorKind, CopyEvent, IoFault, Pair, ReadFault, WriteFault,
};

#[test]
fn copy_error_kind_table() {
    let lost = |c: ConnFault| IoFault::Read(ReadFault::ConnectionLost(c));
    let cases = [
        ("graceful read", lost(ConnFault::ApplicationClosed(0)), CopyErrorKind::Benign),
        (
            "graceful write",
            IoFault::Write(WriteFault::ConnectionLost(ConnFault::ApplicationClosed(0))),
            CopyErrorKind::Benign,
        ),
        ("app error code 1", lost(ConnFault::ApplicationClosed(1)), CopyErrorKind::Disconnect),
        ("idle timeout", lost(ConnFault::TimedOut), CopyErrorKind::Disconnect),
        ("stateless reset", lost(ConnFault::Reset), CopyErrorKind::Disconnect),
        ("transport error", lost(ConnFault::ConnectionClosed), CopyErrorKind::Disconnect),
        ("locally closed", lost(ConnFault::LocallyClosed), CopyErrorKind::Benign),
        ("closed stream (read)", IoFault::Read(ReadFault::ClosedStream), CopyErrorKind::Benign),
        ("stream reset by peer", IoFault::Read(ReadFault::Reset), CopyErrorKind::Error),
        ("stopped by peer (write)", IoFault::Write(WriteFault::Stopped), CopyErrorKind::Error),
        ("deadline exceeded", IoFault::TimedOut, CopyErrorKind::Timeout),
        ("local read closed", IoFault::ConnectionAborted, CopyErrorKind::Benign),
        ("local write closed", IoFault::BrokenPipe, CopyErrorKind::Benign),
        ("unexpected eof", IoFault::Other, CopyErrorKind::Error),
        ("plain error", IoFault::Other, CopyErrorKind::Error),
    ];
    for (name, err, want) in cases {
        let got = copy_error_kind(&err);
        assert_eq!(got, want, "case {name}: got {got:?}, want {want:?}");
    }
}

#[test]
fn timeout_errors_classify_as_timeout() {
    assert_eq!(copy_error_kind(&IoFault::TimedOut), CopyErrorKind::Timeout);
}

#[test]
fn peer_disconnect_variants() {
    assert!(is_peer_disconnect(&ConnFault::ApplicationClosed(1)), "application close");
    assert!(is_peer_disconnect(&ConnFault::Reset), "stateless reset");
    assert!(is_peer_disconnect(&ConnFault::TimedOut), "idle timeout");
}

#[test]
fn local_and_other_errors_are_not_peer_disconnects() {
    assert!(!is_peer_disconnect(&ConnFault::LocallyClosed), "local close");
    assert!(!is_peer_disconnect(&ConnFault::VersionMismatch), "version mismatch");
    assert!(!is_peer_disconnect(&ConnFault::CidsExhausted), "cids exhausted");
    assert!(is_peer_disconnect(&ConnFault::ConnectionClosed), "peer connection close");
}

#[test]
fn rarer_faults() {
    for f in [ReadFault::IllegalOrderedRead, ReadFault::ZeroRttRejected] {
        assert_eq!(copy_error_kind(&IoFault::Read(f)), CopyErrorKind::Error);
    }
    let closed = IoFault::Write(WriteFault::ClosedStream);
    assert_eq!(copy_error_kind(&closed), CopyErrorKind::Benign);
    let zero = IoFault::Write(WriteFault::ZeroRttRejected);
    assert_eq!(copy_error_kind(&zero), CopyErrorKind::Error);
    let conn = IoFault::Connection(ConnFault::TransportError);
    assert_eq!(copy_error_kind(&conn), CopyErrorKind::Disconnect);
    assert_eq!(conn_close_kind(&ConnFault::VersionMismatch), CopyErrorKind::Error);
    assert_eq!(conn_close_kind(&ConnFault::CidsExhausted), CopyErrorKind::Error);
}

#[test]
fn what_is_logged_of_a_copy() {
    assert!(copy_notice("a←b", &IoFault::BrokenPipe, "m").is_none());
    let n = copy_notice("a←b", &IoFault::TimedOut, "m").unwrap();
    assert!(!n.error);
    assert_eq!(n.text, "Copy timeout (a←b): m");
    let n = copy_notice("b←a", &IoFault::Connection(ConnFault::Reset), "m").unwrap();
    assert_eq!((n.error, n.text.as_str()), (false, "Copy disconnect (b←a): m"));
    let n = copy_notice("b←a", &IoFault::Other, "boom").unwrap();
    assert_eq!((n.error, n.text.as_str()), (true, "Copy error (b←a): boom"));
}

#[test]
fn what_is_logged_of_a_disconnect() {
    let e = ConnFault::TimedOut;
    assert_eq!(log_disconnect(&e, "timed out", false).unwrap(), "Remote host disconnected");
    assert_eq!(
        log_disconnect(&e, "timed out", true).unwrap(),
        "Remote host disconnected: timed out"
    );
    assert_eq!(log_disconnect(&ConnFault::LocallyClosed, "closed", true), None);
}

#[test]
fn steps_of_a_copy() {
    assert_eq!(copy_step(CopyEvent::Read(11)), CopyAction::Write(11));
    assert_eq!(copy_step(CopyEvent::Read(0)), CopyAction::Finish);
    assert_eq!(copy_step(CopyEvent::Stopped), CopyAction::Finish);
    assert_eq!(copy_step(CopyEvent::Failed), CopyAction::Fail);
}

#[test]
fn bidirectional_copy_interrupt_once() {
    let mut p = Pair::new();
    let a = p.step(false, false);
    assert!(!a.interrupt && !a.finished && !a.stop_out);
    let a = p.step(false, true);
    assert!(a.interrupt && a.stop_out && !a.finished);
    let a = p.step(false, false);
    assert!(!a.interrupt && a.stop_out);
    let a = p.step(true, false);
    assert!(!a.interrupt && !a.stop_out && a.finished);
}

#[test]
fn local_end_leaves_the_other_direction() {
    let mut p = Pair::new();
    let a = p.step(true, false);
    assert!(a.interrupt && !a.stop_out && !a.finished);
    let a = p.step(false, true);
    assert!(!a.interrupt && a.finished);
}
