//! Names of the two sides of a connection.
use vstd::prelude::*;

verus! {

/// The side that accepts is the server, the one that dials the client.
pub fn role_string(is_server: bool) -> (s: &'static str)
    ensures
        s@ == if is_server {
            "server"@
        } else {
            "client"@
        },
{
    if is_server {
        "server"
    } else {
        "client"
    }
}

} // verus!
