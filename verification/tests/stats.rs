//! Byte counts.
use qvole::stats::{format_bytes, report_line, Closing, DirectionWriter, Report, StatsTracker};

#[test]
fn format_bytes_values() {
    let cases = [(0, "0 B"), (1, "1 B"), (512, "512 B"), (1023, "1023 B")];
    for (n, want) in cases {
        assert_eq!(format_bytes(n), want, "formatBytes({n})");
    }
    let big = [
        (1024, "1.00", "KB"),
        (1536, "1.50", "KB"),
        (1048576, "1.00", "MB"),
        (1572864, "1.50", "MB"),
        (1073741824, "1.00", "GB"),
        (1610612736, "1.50", "GB"),
    ];
    for (n, num, unit) in big {
        let got = format_bytes(n);
        assert!(got.starts_with(num), "formatBytes({n}) = {got}");
        assert!(got.contains(unit), "formatBytes({n}) = {got}");
    }
}

/// What floating point makes of a number of bytes.
fn by_float(n: i64) -> String {
    let v = n as f64;
    if v >= 1073741824.0 {
        format!("{:.2} GB", v / 1073741824.0)
    } else if v >= 1048576.0 {
        format!("{:.2} MB", v / 1048576.0)
    } else if v >= 1024.0 {
        format!("{:.2} KB", v / 1024.0)
    } else {
        format!("{} B", v as i64)
    }
}

#[test]
fn bytes_as_floating_point_shows_them() {
    let mut cases: Vec<i64> = vec![i64::MIN, i64::MIN + 1, i64::MAX, i64::MAX - 1, -1, -1024, -5000];
    for k in 0..63 {
        for d in [-3i64, -1, 0, 1, 2, 5, 1023] {
            cases.push((1i64 << k).wrapping_add(d));
        }
    }
    // Halves of a hundredth, which go to the even side.
    for i in 0..400i64 {
        cases.push(1024 + i * 128);
        cases.push(1_048_576 + i * 131_072 / 25);
        cases.push(3 * 1_073_741_824 + i * 134_217_728);
        cases.push((1i64 << 53) + i * 7_919);
        cases.push((1i64 << 61) + i * 129);
    }
    let mut x: u64 = 88_172_645_463_325_252;
    for _ in 0..2000 {
        x ^= x << 13;
        x ^= x >> 7;
        x ^= x << 17;
        cases.push((x >> (x % 60)) as i64);
    }
    for n in cases {
        assert_eq!(format_bytes(n), by_float(n), "{n}");
    }
}

/// A writer that takes everything.
fn take_all(p: &[u8]) -> Result<usize, String> {
    Ok(p.len())
}

#[test]
fn direction_writer_counts() {
    let mut dw = DirectionWriter::new();
    let n = dw.write(take_all(b"hello")).unwrap();
    assert_eq!(n, 5);
    assert_eq!(dw.counter, 5);
}

#[test]
fn direction_writer_multiple_writes() {
    let mut dw = DirectionWriter::new();
    dw.write(take_all(b"abc")).unwrap();
    dw.write(take_all(b"def")).unwrap();
    dw.write(take_all(b"ghi")).unwrap();
    assert_eq!(dw.counter, 9);
}

#[test]
fn failed_writes_are_not_counted() {
    let mut dw = DirectionWriter::new();
    let r: Result<usize, String> = dw.write(Err("full".to_string()));
    assert_eq!(r, Err("full".to_string()));
    assert_eq!(dw.counter, 0);
}

#[test]
fn tracker_txrx() {
    let mut st = StatsTracker::new();
    st.tx.write(take_all(b"tx-data")).unwrap();
    st.rx.write(take_all(b"rx-data")).unwrap();
    assert_eq!(st.tx(), 7);
    assert_eq!(st.rx(), 7);
}

#[test]
fn tracker_stop_and_log() {
    let mut st = StatsTracker::new();
    assert!(matches!(st.stop_and_log(true), Some(Closing::Done)));
    assert!(st.stop_and_log(true).is_none(), "the line is written once");
    let mut st = StatsTracker::new();
    st.tx.write(take_all(&[0u8; 1536])).unwrap();
    match st.stop_and_log(true) {
        Some(Closing::Total(s)) => assert_eq!(s, "Total: ↑ 1.50 KB  ↓ 0 B"),
        other => panic!("{other:?}"),
    }
}

#[test]
fn reports_of_a_transfer() {
    let mut st = StatsTracker::new();
    st.tx.write(take_all(&[0u8; 100])).unwrap();
    assert!(st.tick().is_none(), "the first look only notes the counters");
    assert!(st.tick().is_none(), "nothing was added");
    st.rx.write(take_all(&[0u8; 20])).unwrap();
    let r = st.tick().unwrap();
    assert_eq!(r, Report { tx: 100, tx_delta: 0, rx: 20, rx_delta: 20 });
    assert_eq!(
        report_line(&r, "0 B/s", "10 B/s", true),
        "↑ 100 B (0 B/s)  ↓ 20 B (10 B/s)"
    );
}

#[test]
fn stopping_leaves_the_counters() {
    let mut t = StatsTracker::new();
    t.tx.write::<()>(Ok(5)).unwrap();
    t.rx.write::<()>(Ok(7)).unwrap();
    t.tick();
    assert!(matches!(t.stop_and_log(true), Some(Closing::Total(_))));
    assert!(t.stop_and_log(true).is_none());
    assert!(t.stopped && t.started);
    assert_eq!((t.tx(), t.rx(), t.last_tx, t.last_rx), (5, 7, 5, 7));
}
