//! What an MQTT connection loop decides on each event of its connection.

use vstd::prelude::*;
use vstd::utf8::*;
use crate::text::{concat3, utf8_text};

verus! {

/// How long a loop waits after a connection failure before polling again.
pub const RETRY_SECONDS: u64 = 5;

/// What polling an MQTT connection gave.
pub enum LinkEvent {
    /// The broker acknowledged the connection.
    Connected,
    /// A message was published to us, with this payload.
    Message(Vec<u8>),
    /// Any other packet.
    Other,
    /// Polling failed, with this description.
    Failure(String),
}

/// What a loop does next.
pub enum LinkAction {
    /// Print this line.
    Announce(String),
    /// Subscribe to the topics of this filter, then print the line.
    Subscribe { filter: String, announce: String },
    /// Hand this payload text on to the subscribers.
    Forward(String),
    /// Nothing.
    Ignore,
    /// Report this line as an error, wait `delay_secs` seconds, then poll again.
    Retry { delay_secs: u64, report: String },
}

/// The backend listener's step: once connected, subscribe to the image events
/// of every device and say so; forward the text of each message that is UTF-8
/// (others are dropped); wait 5 s after a failure.
pub fn listener_step(event: LinkEvent) -> (a: LinkAction)
    ensures
        event is Connected ==> (a matches LinkAction::Subscribe { filter, announce } && filter@
            == "images/+/events"@ && announce@ == "MQTT listener subscribed to images/+/events"@),
        event matches LinkEvent::Message(p) ==> (if valid_utf8(p@) {
            a matches LinkAction::Forward(t) && t@ == decode_utf8(p@)
        } else {
            a is Ignore
        }),
        event is Other ==> a is Ignore,
        event matches LinkEvent::Failure(d) ==> (a matches LinkAction::Retry { delay_secs, report }
            && delay_secs == RETRY_SECONDS && report@ == "MQTT listener error: "@ + d@
            + ". Reconnecting in 5s..."@),
{
    match event {
        LinkEvent::Connected => LinkAction::Subscribe {
            filter: "images/+/events".to_owned(),
            announce: "MQTT listener subscribed to images/+/events".to_owned(),
        },
        LinkEvent::Message(p) => match utf8_text(p.as_slice()) {
            Some(t) => LinkAction::Forward(t),
            None => LinkAction::Ignore,
        },
        LinkEvent::Other => LinkAction::Ignore,
        LinkEvent::Failure(d) => LinkAction::Retry {
            delay_secs: RETRY_SECONDS,
            report: concat3("MQTT listener error: ", d.as_str(), ". Reconnecting in 5s..."),
        },
    }
}

/// The camera device's step: announce the connection, ignore every other
/// packet, and wait 5 s after a failure.
pub fn device_step(event: LinkEvent) -> (a: LinkAction)
    ensures
        event is Connected ==> (a matches LinkAction::Announce(t) && t@
            == "Connected to AWS IoT Core!\n"@),
        (event is Message || event is Other) ==> a is Ignore,
        event matches LinkEvent::Failure(d) ==> (a matches LinkAction::Retry { delay_secs, report }
            && delay_secs == RETRY_SECONDS && report@ == "Connection lost: "@ + d@
            + ". Retrying in 5s..."@),
{
    match event {
        LinkEvent::Connected => LinkAction::Announce("Connected to AWS IoT Core!\n".to_owned()),
        LinkEvent::Message(_) => LinkAction::Ignore,
        LinkEvent::Other => LinkAction::Ignore,
        LinkEvent::Failure(d) => LinkAction::Retry {
            delay_secs: RETRY_SECONDS,
            report: concat3("Connection lost: ", d.as_str(), ". Retrying in 5s..."),
        },
    }
}

} // verus!
