//! Settings from the environment.
use qvole::env::{env_duration_ms, env_duration_ms_from, env_int, env_int_from, Env};

#[test]
fn test_env_int_semantics() {
    assert_eq!(env_int_from(None, 7), 7, "absent");
    assert_eq!(env_int_from(Some(""), 7), 7, "empty");
    assert_eq!(env_int_from(Some("0"), 7), 7, "zero");
    assert_eq!(env_int_from(Some("-5"), 7), 7, "negative");
    assert_eq!(env_int_from(Some("abc"), 7), 7, "unparseable");
    assert_eq!(env_int_from(Some("42"), 7), 42, "valid");
    assert_eq!(
        env_int_from(Some("9223372036854775808"), 7),
        7,
        "i64 overflow"
    );
}

#[test]
fn test_env_duration_semantics() {
    assert_eq!(env_duration_ms_from(None, 1000), 1000, "absent");
    assert_eq!(env_duration_ms_from(Some(""), 1000), 1000, "empty");
    assert_eq!(env_duration_ms_from(Some("0"), 1000), 1000, "zero");
    assert_eq!(env_duration_ms_from(Some("-1"), 1000), 1000, "negative");
    assert_eq!(env_duration_ms_from(Some("x"), 1000), 1000, "unparseable");
    assert_eq!(env_duration_ms_from(Some("250"), 1000), 250, "valid");
    // wrap. (Values above i64::MAX fail to parse and fall back to def,
    let huge = env_duration_ms_from(Some("9223372036854775807"), 1000);
    assert_eq!(huge, i64::MAX as u64 / 1000, "cap");
    let overflow = env_duration_ms_from(Some("99999999999999999999"), 1000);
    assert_eq!(overflow, 1000, "parse failure falls back to default");
}

#[test]
fn settings_are_read_by_name() {
    let mut env = Env::new();
    env.set("QVOLE_MAX_ROOMS", "12");
    env.set("QVOLE_REG_TTL_MS", "250");
    assert_eq!(env_int(&env, "QVOLE_MAX_ROOMS", 7), 12);
    assert_eq!(env_int(&env, "QVOLE_MAX_ROOM", 7), 7);
    assert_eq!(env_duration_ms(&env, "QVOLE_REG_TTL_MS", 9), 250);
    env.set("QVOLE_MAX_ROOMS", "-3");
    assert_eq!(env_int(&env, "QVOLE_MAX_ROOMS", 7), 7);
    assert_eq!(env.get("QVOLE_REG_TTL_MS"), Some("250"));
    assert_eq!(env.get("HOME"), None);
}
