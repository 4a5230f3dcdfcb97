use qvole::drop_log::{drop_text, evicted_text, listening_text};
use qvole::model::{DropReason, Stage};

const SRC: &str = "192.0.2.1:4000";

#[test]
fn reg_drops_are_described() {
    let reg: &[u8] = b"REG 12-test-room\n";
    assert_eq!(
        drop_text(DropReason::Oversized, &[b'x'; 5000], SRC, 2),
        "Dropped oversized datagram (5000 bytes) from 192.0.2.1:4000"
    );
    assert_eq!(
        drop_text(DropReason::InvalidRoom, b"REG a\x01b", SRC, 2),
        "Dropped REG with invalid room \"a\\u{1}b\" from 192.0.2.1:4000"
    );
    assert_eq!(
        drop_text(DropReason::MismatchedCookieInStore, reg, SRC, 2),
        "Dropped REG with mismatched cookie from 192.0.2.1:4000 in room 12-test-room (pending store)"
    );
    assert_eq!(
        drop_text(DropReason::MismatchedCookieInRoom, reg, SRC, 2),
        "Dropped REG with mismatched cookie from 192.0.2.1:4000 in room 12-test-room"
    );
    assert_eq!(
        drop_text(DropReason::HardCap(Stage::Admission), reg, SRC, 2),
        "Room 12-test-room at hard cap (2), rejecting 192.0.2.1:4000 (cookie admission)"
    );
    assert_eq!(
        drop_text(DropReason::RoomLimitPerIp(Stage::Request), reg, SRC, 2),
        "Room limit per IP reached for 192.0.2.1:4000"
    );
    assert_eq!(
        drop_text(DropReason::RoomLimitPerIp(Stage::Completion), reg, SRC, 2),
        "Room limit per IP reached for 192.0.2.1:4000 (cookie completion)"
    );
    assert_eq!(
        drop_text(DropReason::MaxRooms, reg, SRC, 2),
        "Room 12-test-room rejected: max rooms reached (cookie completion)"
    );
}

#[test]
fn msg_drops_are_described() {
    assert_eq!(
        drop_text(DropReason::MsgUnknownPhase, b"MSG r1 hello aa", SRC, 2),
        "Dropped MSG with unknown phase \"hello\" from 192.0.2.1:4000 in room \"r1\""
    );
    assert_eq!(
        drop_text(DropReason::MsgInvalidBody, b"MSG r1 spake2 zz", SRC, 2),
        "Dropped MSG with invalid body from 192.0.2.1:4000 in room \"r1\""
    );
    assert_eq!(
        drop_text(DropReason::MsgUnknownRoom, b"MSG r1 spake2 aa", SRC, 2),
        "Dropped MSG for unknown room r1 from 192.0.2.1:4000"
    );
    assert_eq!(
        drop_text(DropReason::MsgUnregistered, b"MSG r1 confirm aa", SRC, 2),
        "Dropped message from unregistered client 192.0.2.1:4000 in room r1"
    );
}

#[test]
fn unknown_type_is_cut_short() {
    assert_eq!(
        drop_text(DropReason::UnknownType, b" PING\xff ", SRC, 2),
        "Dropped unknown packet type from 192.0.2.1:4000: \"PING\u{fffd}\""
    );
    let long = [b'a'; 41];
    assert_eq!(
        drop_text(DropReason::UnknownType, &long, SRC, 2),
        format!("Dropped unknown packet type from {SRC}: {:?}", "a".repeat(40))
    );
}

#[test]
fn relay_events_are_described() {
    assert_eq!(evicted_text(3), "Evicted 3 stale room(s)");
    assert_eq!(
        listening_text(":9000", 4, 128, true),
        "Listening on UDP :9000 (4 workers, 128 writePool)"
    );
}
