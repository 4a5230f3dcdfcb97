//! Log lines: a time, a tag and a message, in color unless that is off.
use vstd::prelude::*;

use crate::text::join2;

verus! {

/// Width of the tag.
pub const PREFIX_WIDTH: usize = 10;

pub const ANSI_DIM: &'static str = "\u{1b}[2m";

pub const ANSI_BOLD: &'static str = "\u{1b}[1m";

pub const ANSI_RED: &'static str = "\u{1b}[31m";

pub const ANSI_GREEN: &'static str = "\u{1b}[32m";

pub const ANSI_YELLOW: &'static str = "\u{1b}[33m";

pub const ANSI_RESET: &'static str = "\u{1b}[0m";

/// `s` in bold type.
pub open spec fn spec_bold(s: Seq<char>, no_color: bool) -> Seq<char> {
    if no_color {
        s
    } else {
        ANSI_BOLD@ + s + ANSI_RESET@
    }
}

pub fn format_bold(s: &str, no_color: bool) -> (r: String)
    ensures
        r@ == spec_bold(s@, no_color),
{
    if no_color {
        s.to_owned()
    } else {
        let mut r = join2(ANSI_BOLD, s);
        r.push_str(ANSI_RESET);
        r
    }
}

/// Colors are off when the variable `NO_COLOR` is set to some text.
pub fn colors_disabled(no_color: Option<&str>) -> (b: bool)
    ensures
        b == (no_color is Some && no_color->0@.len() > 0),
{
    match no_color {
        Some(v) => !v.is_empty(),
        None => false,
    }
}

/// What is shown, and how.
#[derive(Clone, Copy, Debug)]
pub struct LogSettings {
    pub debug: bool,
    pub no_color: bool,
}

impl LogSettings {
    pub fn new(no_color: Option<&str>) -> (l: LogSettings)
        ensures
            !l.debug,
            l.no_color == (no_color is Some && no_color->0@.len() > 0),
    {
        LogSettings { debug: false, no_color: colors_disabled(no_color) }
    }

    /// Shows the lines for debugging, or leaves them out.
    pub fn set_debug(&mut self, on: bool)
        ensures
            final(self).debug == on,
            final(self).no_color == old(self).no_color,
    {
        self.debug = on;
    }

    pub fn debug_enabled(&self) -> (b: bool)
        ensures
            b == self.debug,
    {
        self.debug
    }

    /// `s` in bold type, where there are colors.
    pub fn bold(&self, s: &str) -> (r: String)
        ensures
            r@ == spec_bold(s@, self.no_color),
    {
        format_bold(s, self.no_color)
    }
}

/// `prefix` with spaces behind it, up to the width of a tag.
pub open spec fn spec_tag(prefix: Seq<char>) -> Seq<char> {
    prefix + Seq::new(
        if prefix.len() < PREFIX_WIDTH {
            (PREFIX_WIDTH - prefix.len()) as nat
        } else {
            0
        },
        |i: int| ' ',
    )
}

fn tag(prefix: &str) -> (r: String)
    ensures
        r@ == spec_tag(prefix@),
{
    let mut r = prefix.to_owned();
    let n: usize = crate::text::chars_of(prefix).len();
    let mut i: usize = n;
    assert(r@ =~= prefix@ + Seq::new(0, |i: int| ' '));
    while i < PREFIX_WIDTH
        invariant
            n == prefix@.len(),
            n <= i,
            i <= PREFIX_WIDTH || i == n,
            r@ == prefix@ + Seq::new((i - n) as nat, |i: int| ' '),
        decreases PREFIX_WIDTH - i,
    {
        r.push(' ');
        assert(r@ =~= prefix@ + Seq::new((i + 1 - n) as nat, |i: int| ' '));
        i = i + 1;
    }
    assert(r@ =~= spec_tag(prefix@));
    r
}

/// A log line.
pub open spec fn spec_line(
    prefix: Seq<char>,
    color: Seq<char>,
    msg_color: Seq<char>,
    msg: Seq<char>,
    ts: Seq<char>,
    no_color: bool,
) -> Seq<char> {
    if no_color {
        ts + "  "@ + spec_tag(prefix) + "  "@ + msg
    } else {
        ANSI_DIM@ + ts + ANSI_RESET@ + "  "@ + color + spec_tag(prefix) + ANSI_RESET@ + "  "@ + (
        if msg_color.len() == 0 {
            msg
        } else {
            msg_color + msg + ANSI_RESET@
        })
    }
}

/// Puts a log line together.
pub fn format_line(
    prefix: &str,
    color: &str,
    msg_color: &str,
    msg: &str,
    ts: &str,
    no_color: bool,
) -> (r: String)
    ensures
        r@ == spec_line(prefix@, color@, msg_color@, msg@, ts@, no_color),
{
    let tag = tag(prefix);
    if no_color {
        let mut r = join2(ts, "  ");
        r.push_str(tag.as_str());
        r.push_str("  ");
        r.push_str(msg);
        return r;
    }
    let mut r = join2(ANSI_DIM, ts);
    r.push_str(ANSI_RESET);
    r.push_str("  ");
    r.push_str(color);
    r.push_str(tag.as_str());
    r.push_str(ANSI_RESET);
    r.push_str("  ");
    let ghost head = r@;
    if msg_color.is_empty() {
        r.push_str(msg);
    } else {
        r.push_str(msg_color);
        r.push_str(msg);
        r.push_str(ANSI_RESET);
        assert(r@ =~= head + (msg_color@ + msg@ + ANSI_RESET@));
    }
    r
}

/// The tag of a part of the program, and its color.
#[derive(Clone, Copy, Debug)]
pub struct Logger {
    pub prefix: &'static str,
    pub color: &'static str,
}

impl Logger {
    pub fn new(prefix: &'static str, color: &'static str) -> (l: Logger)
        ensures
            l.prefix@ == prefix@,
            l.color@ == color@,
    {
        Logger { prefix, color }
    }

    /// The line with message `msg` in color `msg_color`.
    pub open spec fn spec_logf(
        self,
        msg_color: Seq<char>,
        msg: Seq<char>,
        ts: Seq<char>,
        no_color: bool,
    ) -> Seq<char> {
        spec_line(self.prefix@, self.color@, msg_color, msg, ts, no_color)
    }

    /// A line that is shown only when debugging.
    pub fn printf(&self, msg: &str, ts: &str, no_color: bool, debug: bool) -> (r: Option<String>)
        ensures
            if debug {
                r is Some && r->0@ == self.spec_logf(Seq::empty(), msg@, ts@, no_color)
            } else {
                r is None
            },
    {
        if debug {
            Some(self.printf_info(msg, ts, no_color))
        } else {
            None
        }
    }

    pub fn printf_info(&self, msg: &str, ts: &str, no_color: bool) -> (r: String)
        ensures
            r@ == self.spec_logf(Seq::empty(), msg@, ts@, no_color),
    {
        proof {
            reveal_strlit("");
            assert(""@ =~= Seq::empty());
        }
        format_line(self.prefix, self.color, "", msg, ts, no_color)
    }

    pub fn printf_error(&self, msg: &str, ts: &str, no_color: bool) -> (r: String)
        ensures
            r@ == self.spec_logf(ANSI_RED@, msg@, ts@, no_color),
    {
        format_line(self.prefix, self.color, ANSI_RED, msg, ts, no_color)
    }

    pub fn printf_warn(&self, msg: &str, ts: &str, no_color: bool) -> (r: String)
        ensures
            r@ == self.spec_logf(ANSI_YELLOW@, msg@, ts@, no_color),
    {
        format_line(self.prefix, self.color, ANSI_YELLOW, msg, ts, no_color)
    }

    pub fn printf_success(&self, msg: &str, ts: &str, no_color: bool) -> (r: String)
        ensures
            r@ == self.spec_logf(ANSI_GREEN@, msg@, ts@, no_color),
    {
        format_line(self.prefix, self.color, ANSI_GREEN, msg, ts, no_color)
    }
}

/// The loggers of the parts of the program.
pub fn log_pipe() -> (l: Logger)
    ensures
        l.prefix@ == "Pipe"@,
        l.color@ == "\u{1b}[36m"@,
{
    Logger::new("Pipe", "\u{1b}[36m")
}

pub fn log_tunnel() -> (l: Logger)
    ensures
        l.prefix@ == "Tunnel"@,
        l.color@ == "\u{1b}[32m"@,
{
    Logger::new("Tunnel", "\u{1b}[32m")
}

pub fn log_relay() -> (l: Logger)
    ensures
        l.prefix@ == "Relay"@,
        l.color@ == "\u{1b}[33m"@,
{
    Logger::new("Relay", "\u{1b}[33m")
}

pub fn log_hole() -> (l: Logger)
    ensures
        l.prefix@ == "HolePunch"@,
        l.color@ == "\u{1b}[34m"@,
{
    Logger::new("HolePunch", "\u{1b}[34m")
}

pub fn log_spake2() -> (l: Logger)
    ensures
        l.prefix@ == "SPAKE2"@,
        l.color@ == "\u{1b}[35m"@,
{
    Logger::new("SPAKE2", "\u{1b}[35m")
}

pub fn log_copy() -> (l: Logger)
    ensures
        l.prefix@ == "Copy"@,
        l.color@ == "\u{1b}[90m"@,
{
    Logger::new("Copy", "\u{1b}[90m")
}

pub fn log_exec() -> (l: Logger)
    ensures
        l.prefix@ == "Exec"@,
        l.color@ == "\u{1b}[96m"@,
{
    Logger::new("Exec", "\u{1b}[96m")
}

/// The message stands unchanged at the end of a line without colors.
pub proof fn law_plain_line_ends_with_message(
    prefix: Seq<char>,
    color: Seq<char>,
    msg_color: Seq<char>,
    msg: Seq<char>,
    ts: Seq<char>,
)
    ensures
        ({
            let l = spec_line(prefix, color, msg_color, msg, ts, true);
            l.len() >= msg.len() && l.skip(l.len() - msg.len()) == msg && l == spec_line(
                prefix,
                Seq::empty(),
                Seq::empty(),
                msg,
                ts,
                true,
            )
        }),
{
    let l = spec_line(prefix, color, msg_color, msg, ts, true);
    assert(l.skip(l.len() - msg.len()) =~= msg);
}

} // verus!
