//! The backend server's settings.

use vstd::prelude::*;
use crate::text::{concat3, text_or};

verus! {

/// How many connections the SQLite pool opens at most.
pub const MAX_DB_CONNECTIONS: u32 = 5;

/// How many messages the MQTT-to-WebSocket broadcast channel holds.
pub const BROADCAST_CAPACITY: usize = 100;

/// The address the server listens on: `{host}:{port}`, from the values of
/// `SERVER_HOST` and `SERVER_PORT`, defaulting to `127.0.0.1` and `8080`.
pub fn server_address(host: Option<String>, port: Option<String>) -> (a: String)
    ensures
        a@ == (match host {
            Some(h) => h@,
            None => "127.0.0.1"@,
        }) + ":"@ + (match port {
            Some(p) => p@,
            None => "8080"@,
        }),
{
    let h = text_or(host, "127.0.0.1");
    let p = text_or(port, "8080");
    concat3(h.as_str(), ":", p.as_str())
}

} // verus!
