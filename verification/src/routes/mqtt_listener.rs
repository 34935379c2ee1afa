//! The backend's MQTT listener: its connection settings.

use vstd::prelude::*;
use crate::text::{concat2, text_or};

verus! {

/// The port of the AWS IoT endpoint (MQTT over TLS).
pub const BROKER_PORT: u16 = 8883;

/// The MQTT keep-alive interval, in seconds.
pub const KEEP_ALIVE_SECONDS: u64 = 30;

/// How many requests the MQTT client queues.
pub const REQUEST_CAPACITY: usize = 20;

/// The broker host: the configured AWS IoT endpoint, or empty text.
pub fn broker_host(endpoint: Option<String>) -> (h: String)
    ensures
        h@ == (match endpoint {
            Some(e) => e@,
            None => Seq::<char>::empty(),
        }),
{
    proof {
        reveal_strlit("");
    }
    text_or(endpoint, "")
}

/// The listener's MQTT client id for a UUID: `backend-listener-{uuid}`.
pub fn listener_client_id(uuid: &str) -> (id: String)
    ensures
        id@ == "backend-listener-"@ + uuid@,
{
    concat2("backend-listener-", uuid)
}

} // verus!
