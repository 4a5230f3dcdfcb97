//! Byte counts, and how they are shown.
use vstd::prelude::*;

use crate::logger::{format_bold, spec_bold};
use crate::number::{decimal, spec_decimal};
use crate::text::join2;

verus! {

/// Interval between two reports.
pub const STATS_REPORT_INTERVAL_MS: u64 = 2000;

const KILO: u128 = 0x400;

const MEGA: u128 = 0x10_0000;

const GIGA: u128 = 0x4000_0000;

/// The whole number nearest to `n / d`, the even one of two.
pub open spec fn half_even(n: nat, d: nat) -> nat {
    let q = n / d;
    let r = n % d;
    if 2 * r > d || (2 * r == d && q % 2 == 1) {
        q + 1
    } else {
        q
    }
}

/// The step between numbers of the size of `n` that 53 binary digits can hold.
pub open spec fn grain(n: nat) -> nat
    decreases n,
{
    if n < 0x20_0000_0000_0000 {
        1
    } else {
        2 * grain(n / 2)
    }
}

/// `n` rounded to 53 binary digits.
pub open spec fn to_53_bits(n: nat) -> nat {
    half_even(n, grain(n)) * grain(n)
}

fn round(n: u128, d: u128) -> (q: u128)
    requires
        0 < d <= 0x1_0000_0000_0000_0000,
        n <= 0x100_0000_0000_0000_0000,
    ensures
        q == half_even(n as nat, d as nat),
        q <= n / d + 1,
{
    let q: u128 = n / d;
    let r: u128 = n % d;
    assert(q <= n) by (nonlinear_arith)
        requires
            q == n / d,
            d > 0,
            n >= 0,
    ;
    if 2 * r > d || (2 * r == d && q % 2 == 1) {
        q + 1
    } else {
        q
    }
}

fn round_53(n: u64) -> (m: u128)
    ensures
        m == to_53_bits(n as nat),
        m <= n + 0x1000,
{
    let mut top: u64 = n;
    let mut g: u128 = 1;
    assert(top * g == n) by (nonlinear_arith)
        requires
            top == n,
            g == 1,
    ;
    while top >= 0x20_0000_0000_0000
        invariant
            grain(n as nat) == g * grain(top as nat),
            g >= 1,
            top * g <= n,
            n > 0 ==> top > 0,
            g == 1 || top >= 0x10_0000_0000_0000,
        decreases top,
    {
        assert(g <= n) by (nonlinear_arith)
            requires
                top * g <= n,
                top >= 1,
                g >= 1,
        ;
        assert(2 * g * grain((top / 2) as nat) == g * grain(top as nat)) by (nonlinear_arith)
            requires
                grain(top as nat) == 2 * grain((top / 2) as nat),
        ;
        assert((top / 2) * (2 * g) <= n) by (nonlinear_arith)
            requires
                top * g <= n,
                g >= 1,
                0 <= 2 * (top / 2) <= top,
        ;
        top = top / 2;
        g = 2 * g;
    }
    assert(g * 1 == g) by (nonlinear_arith);
    if n == 0 {
        assert(grain(0) == 1);
        assert(half_even(0, 1) == 0);
        return 0;
    }
    assert(g <= 0x1000) by (nonlinear_arith)
        requires
            top * g <= n,
            g == 1 || top >= 0x10_0000_0000_0000,
            n < 0x1_0000_0000_0000_0000,
            g >= 1,
    ;
    let q = round(n as u128, g);
    assert(q * g <= n + g) by (nonlinear_arith)
        requires
            q <= n as u128 / g + 1,
            g >= 1,
    ;
    q * g
}

/// A digit as a character.
pub open spec fn digit(d: nat) -> char {
    (d + 48) as char
}

/// A number of hundredths, with its point.
pub open spec fn spec_hundredths(h: nat) -> Seq<char> {
    spec_decimal(h / 100) + "."@ + seq![digit(h / 10 % 10), digit(h % 10)]
}

/// A number of bytes: in the largest unit of which there is at least one, to
/// two places behind the point; bytes as they are.
pub open spec fn spec_format_bytes(n: int) -> Seq<char> {
    if n < 0 {
        "-"@ + spec_decimal(to_53_bits((-n) as nat)) + " B"@
    } else {
        let m = to_53_bits(n as nat);
        if m >= 0x4000_0000 {
            spec_hundredths(half_even(m * 100, 0x4000_0000)) + " GB"@
        } else if m >= 0x10_0000 {
            spec_hundredths(half_even(m * 100, 0x10_0000)) + " MB"@
        } else if m >= 0x400 {
            spec_hundredths(half_even(m * 100, 0x400)) + " KB"@
        } else {
            spec_decimal(m) + " B"@
        }
    }
}

fn digit_char(d: u64) -> (c: char)
    requires
        d < 10,
    ensures
        c == digit(d as nat),
{
    (d as u8 + 48) as char
}

fn in_unit(m: u128, unit: u128, suffix: &str) -> (s: String)
    requires
        0x400 <= unit <= 0x4000_0000,
        m <= 0x1_0000_0000_0000_0000,
    ensures
        s@ == spec_hundredths(half_even((m * 100) as nat, unit as nat)) + suffix@,
{
    let h: u128 = round(m * 100, unit);
    assert((m as int * 100) / (unit as int) <= 0x2000_0000_0000_0000) by (nonlinear_arith)
        requires
            unit >= 0x400,
            m <= 0x1_0000_0000_0000_0000,
            m >= 0,
    ;
    let h: u64 = h as u64;
    let whole = decimal(h / 100);
    let mut s = join2(whole.as_str(), ".");
    let ghost head = s@;
    s.push(digit_char(h / 10 % 10));
    s.push(digit_char(h % 10));
    assert(s@ =~= head + seq![digit((h / 10 % 10) as nat), digit((h % 10) as nat)]);
    s.push_str(suffix);
    s
}

/// A number of bytes for people to read.
pub fn format_bytes(n: i64) -> (s: String)
    ensures
        s@ == spec_format_bytes(n as int),
{
    if n < 0 {
        let a: u64 = (-(n as i128)) as u64;
        let m: u128 = round_53(a);
        let m: u64 = m as u64;
        let mut s = join2("-", decimal(m).as_str());
        s.push_str(" B");
        return s;
    }
    let m: u128 = round_53(n as u64);
    if m >= GIGA {
        in_unit(m, GIGA, " GB")
    } else if m >= MEGA {
        in_unit(m, MEGA, " MB")
    } else if m >= KILO {
        in_unit(m, KILO, " KB")
    } else {
        join2(decimal(m as u64).as_str(), " B")
    }
}

/// Counts what a writer takes.
#[derive(Clone, Copy, Debug)]
pub struct DirectionWriter {
    pub counter: i64,
}

/// `c` more by `n`, in 64 bits.
pub open spec fn counted(c: i64, n: usize) -> i64 {
    c.wrapping_add(n as i64)
}

impl DirectionWriter {
    pub fn new() -> (w: DirectionWriter)
        ensures
            w.counter == 0,
    {
        DirectionWriter { counter: 0 }
    }

    /// Passes on what came of a write, and counts the bytes taken.
    pub fn write<E>(&mut self, outcome: Result<usize, E>) -> (r: Result<usize, E>)
        ensures
            r == outcome,
            final(self).counter == match outcome {
                Ok(n) => counted(old(self).counter, n),
                Err(_) => old(self).counter,
            },
    {
        match outcome {
            Ok(n) => {
                self.counter = self.counter.wrapping_add(n as i64);
                Ok(n)
            },
            Err(e) => Err(e),
        }
    }
}

/// What was sent and received, and what of it has been reported.
#[derive(Debug)]
pub struct StatsTracker {
    pub tx: DirectionWriter,
    pub rx: DirectionWriter,
    /// The final line was written.
    pub stopped: bool,
    /// A first look has been taken at the counters.
    pub started: bool,
    pub last_tx: i64,
    pub last_rx: i64,
}

/// Totals and what was added to them since the last look.
#[derive(Clone, Copy, Debug, PartialEq, Eq, Structural)]
pub struct Report {
    pub tx: i64,
    pub tx_delta: i64,
    pub rx: i64,
    pub rx_delta: i64,
}

/// The last line about a transfer.
#[derive(Debug)]
pub enum Closing {
    /// The totals.
    Total(String),
    /// Nothing was transferred.
    Done,
}

/// The line with the totals.
pub open spec fn total_text(tx: int, rx: int, no_color: bool) -> Seq<char> {
    "Total: ↑ "@ + spec_bold(spec_format_bytes(tx), no_color) + "  ↓ "@ + spec_bold(
        spec_format_bytes(rx),
        no_color,
    )
}

/// The line of a report, with the rates as texts.
pub open spec fn report_text(
    tx: int,
    tx_rate: Seq<char>,
    rx: int,
    rx_rate: Seq<char>,
    no_color: bool,
) -> Seq<char> {
    "↑ "@ + spec_format_bytes(tx) + " ("@ + spec_bold(tx_rate, no_color) + ")  ↓ "@
        + spec_format_bytes(rx) + " ("@ + spec_bold(rx_rate, no_color) + ")"@
}

/// Puts the line of a report together.
pub fn report_line(r: &Report, tx_rate: &str, rx_rate: &str, no_color: bool) -> (s: String)
    ensures
        s@ == report_text(r.tx as int, tx_rate@, r.rx as int, rx_rate@, no_color),
{
    let mut s = join2("↑ ", format_bytes(r.tx).as_str());
    s.push_str(" (");
    s.push_str(format_bold(tx_rate, no_color).as_str());
    s.push_str(")  ↓ ");
    s.push_str(format_bytes(r.rx).as_str());
    s.push_str(" (");
    s.push_str(format_bold(rx_rate, no_color).as_str());
    s.push_str(")");
    s
}

impl StatsTracker {
    pub fn new() -> (t: StatsTracker)
        ensures
            t.tx.counter == 0,
            t.rx.counter == 0,
            !t.stopped,
            !t.started,
            t.last_tx == 0,
            t.last_rx == 0,
    {
        StatsTracker {
            tx: DirectionWriter::new(),
            rx: DirectionWriter::new(),
            stopped: false,
            started: false,
            last_tx: 0,
            last_rx: 0,
        }
    }

    pub fn tx(&self) -> (n: i64)
        ensures
            n == self.tx.counter,
    {
        self.tx.counter
    }

    pub fn rx(&self) -> (n: i64)
        ensures
            n == self.rx.counter,
    {
        self.rx.counter
    }

    /// A look at the counters, at the end of an interval. The first one only
    /// notes them; later ones give a report if anything was transferred.
    pub fn tick(&mut self) -> (r: Option<Report>)
        ensures
            final(self).started,
            final(self).last_tx == old(self).tx.counter,
            final(self).last_rx == old(self).rx.counter,
            final(self).tx == old(self).tx,
            final(self).rx == old(self).rx,
            final(self).stopped == old(self).stopped,
            ({
                let tx_delta = old(self).tx.counter.wrapping_sub(old(self).last_tx);
                let rx_delta = old(self).rx.counter.wrapping_sub(old(self).last_rx);
                r == if old(self).started && (tx_delta > 0 || rx_delta > 0) {
                    Some(
                        Report {
                            tx: old(self).tx.counter,
                            tx_delta,
                            rx: old(self).rx.counter,
                            rx_delta,
                        },
                    )
                } else {
                    None::<Report>
                }
            }),
    {
        let tx: i64 = self.tx.counter;
        let rx: i64 = self.rx.counter;
        let tx_delta: i64 = tx.wrapping_sub(self.last_tx);
        let rx_delta: i64 = rx.wrapping_sub(self.last_rx);
        let report = self.started && (tx_delta > 0 || rx_delta > 0);
        self.started = true;
        self.last_tx = tx;
        self.last_rx = rx;
        if report {
            Some(Report { tx, tx_delta, rx, rx_delta })
        } else {
            None
        }
    }

    /// Ends the reports; the first call gives the last line.
    pub fn stop_and_log(&mut self, no_color: bool) -> (r: Option<Closing>)
        ensures
            final(self).stopped,
            final(self).started == old(self).started,
            final(self).tx == old(self).tx,
            final(self).rx == old(self).rx,
            final(self).last_tx == old(self).last_tx,
            final(self).last_rx == old(self).last_rx,
            ({
                let tx = old(self).tx.counter;
                let rx = old(self).rx.counter;
                match r {
                    None => old(self).stopped,
                    Some(Closing::Total(s)) => !old(self).stopped && (tx > 0 || rx > 0) && s@
                        == total_text(tx as int, rx as int, no_color),
                    Some(Closing::Done) => !old(self).stopped && tx <= 0 && rx <= 0,
                }
            }),
    {
        if self.stopped {
            return None;
        }
        self.stopped = true;
        if self.tx.counter > 0 || self.rx.counter > 0 {
            let tx = format_bytes(self.tx.counter);
            let rx = format_bytes(self.rx.counter);
            let mut s = join2("Total: ↑ ", format_bold(tx.as_str(), no_color).as_str());
            s.push_str("  ↓ ");
            s.push_str(format_bold(rx.as_str(), no_color).as_str());
            Some(Closing::Total(s))
        } else {
            Some(Closing::Done)
        }
    }
}

proof fn lemma_half_even_near(n: nat, d: nat)
    requires
        d > 0,
    ensures
        half_even(n, d) * d <= n + d / 2,
        n <= half_even(n, d) * d + d / 2,
{
    assert(n == (n / d) * d + n % d) by (nonlinear_arith)
        requires
            d > 0,
    ;
    assert((n / d + 1) * d == (n / d) * d + d) by (nonlinear_arith);
    assert(n % d < d) by (nonlinear_arith)
        requires
            d > 0,
    ;
}

/// What is shown of a number that 53 binary digits can hold is at most half of
/// a hundredth of the unit away from it.
pub proof fn law_shown_is_near(n: nat, unit: nat)
    requires
        n < 0x20_0000_0000_0000,
        unit == 0x400 || unit == 0x10_0000 || unit == 0x4000_0000,
    ensures
        to_53_bits(n) == n,
        half_even(n * 100, unit) * unit <= n * 100 + unit / 2,
        n * 100 <= half_even(n * 100, unit) * unit + unit / 2,
{
    assert(grain(n) == 1);
    assert(half_even(n, 1) == n);
    assert(n * 1 == n) by (nonlinear_arith);
    lemma_half_even_near(n * 100, unit);
}

} // verus!
