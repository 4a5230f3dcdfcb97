//! Names of the sides.
use qvole::role::role_string;

#[test]
fn role_names() {
    assert_eq!(role_string(true), "server");
    assert_eq!(role_string(false), "client");
}
