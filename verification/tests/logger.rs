//! Log lines.
use qvole::logger::{
    colors_disabled, format_bold, format_line, log_exec, log_pipe, LogSettings, ANSI_BOLD, ANSI_DIM,
    ANSI_GREEN, ANSI_RED, ANSI_RESET, ANSI_YELLOW,
};

const TS: &str = "2026-09-10 06:33:00";

#[test]
fn test_tag_left_justified_to_prefix_width() {
    let l = format_line("Relay", "\u{1b}[33m", "", "hello", TS, true);
    assert_eq!(l, format!("{TS}  Relay       hello"));
}

#[test]
fn test_no_color_format_shape() {
    // "SPAKE2" (6 chars) padded to 10, plus the two separator spaces.
    let l = format_line("SPAKE2", "\u{1b}[35m", "", "msg", TS, true);
    assert!(!l.contains('\u{1b}'), "expected no ANSI, got {l:?}");
    assert_eq!(l, format!("{TS}  SPAKE2      msg"));
}

#[test]
fn test_colored_format_shape() {
    let l = format_line("Relay", "\u{1b}[33m", "", "hello", TS, false);
    assert!(
        l == format!("{ANSI_DIM}{TS}{ANSI_RESET}  \u{1b}[33mRelay     {ANSI_RESET}  hello"),
        "got {l:?}"
    );
}

#[test]
fn test_message_coloring() {
    let l = format_line("Relay", "\u{1b}[33m", ANSI_RED, "bad", TS, false);
    assert!(
        l.ends_with(&format!("  {ANSI_RED}bad{ANSI_RESET}")),
        "got {l:?}"
    );
}

#[test]
fn test_bold() {
    assert_eq!(format_bold("x", true), "x");
    assert_eq!(format_bold("x", false), format!("{ANSI_BOLD}x{ANSI_RESET}"));
}

#[test]
fn levels_have_their_colors() {
    let l = log_pipe();
    assert_eq!(l.printf("x", TS, true, false), None);
    assert_eq!(l.printf("x", TS, true, true), Some(format!("{TS}  Pipe        x")));
    assert_eq!(l.printf_info("x", TS, true), format!("{TS}  Pipe        x"));
    let head = format!("{ANSI_DIM}{TS}{ANSI_RESET}  \u{1b}[36mPipe      {ANSI_RESET}  ");
    assert_eq!(l.printf_error("x", TS, false), format!("{head}{ANSI_RED}x{ANSI_RESET}"));
    assert_eq!(l.printf_warn("x", TS, false), format!("{head}{ANSI_YELLOW}x{ANSI_RESET}"));
    assert_eq!(l.printf_success("x", TS, false), format!("{head}{ANSI_GREEN}x{ANSI_RESET}"));
    assert_eq!(log_exec().prefix, "Exec");
}

#[test]
fn settings_of_the_log() {
    let mut s = LogSettings::new(Some("1"));
    assert!(!s.debug_enabled());
    s.set_debug(true);
    assert!(s.debug_enabled());
    assert_eq!(s.bold("x"), "x");
    let s = LogSettings::new(Some(""));
    assert_eq!(s.bold("x"), format!("{ANSI_BOLD}x{ANSI_RESET}"));
    assert!(!colors_disabled(None));
}

#[test]
fn long_prefix_is_kept() {
    let l = format_line("LongerThanTen", "", "", "m", TS, true);
    assert_eq!(l, format!("{TS}  LongerThanTen  m"));
}
