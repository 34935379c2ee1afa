//! Sending a command to a camera over MQTT.

use vstd::prelude::*;
use crate::clock::{rfc3339_text, rfc3339_utc};
use crate::routes::reply::{api_error, bearer_credential, header_bytes, is_error, require_bearer, ApiError, BAD_REQUEST, INTERNAL_SERVER_ERROR, UNAUTHORIZED};
use crate::text::{concat2, same_text};

pub use crate::routes::reply::ErrorResponse;

verus! {

/// The body of a command request.
pub struct CommandRequest {
    pub command: String,
}

/// The reply to a command that was sent.
pub struct CommandResponse {
    pub status: String,
    pub camera: String,
    pub command: String,
}

/// The message published to a camera: the command, the camera, and when it
/// was sent (RFC 3339).
pub struct CommandPayload {
    pub command: String,
    pub camera: String,
    pub timestamp: String,
}

/// The commands a camera accepts: `capture`, `status` and `ping`.
pub open spec fn allowed_command(command: Seq<char>) -> bool {
    command == "capture"@ || command == "status"@ || command == "ping"@
}

/// The token of a command request, or status 401 `Missing token`.
pub fn commands_token(header: Option<&[u8]>) -> (r: Result<String, ApiError>)
    ensures
        r is Ok <==> bearer_credential(header_bytes(header)) is Some,
        r matches Ok(t) ==> bearer_credential(header_bytes(header)) == Some(t@),
        r matches Err(e) ==> is_error(e, UNAUTHORIZED, "Missing token"@),
{
    require_bearer(header, "Missing token")
}

/// Accepts the allowed commands; any other gets status 400 `Unknown command: {command}`.
pub fn check_command(command: &str) -> (r: Result<(), ApiError>)
    ensures
        r is Ok <==> allowed_command(command@),
        r matches Err(e) ==> is_error(e, BAD_REQUEST, "Unknown command: "@ + command@),
{
    if same_text(command, "capture") || same_text(command, "status") || same_text(command, "ping") {
        Ok(())
    } else {
        let message = concat2("Unknown command: ", command);
        Err(api_error(BAD_REQUEST, message.as_str()))
    }
}

/// Whether a command makes the host take a webcam picture: only `capture` does.
pub fn triggers_capture(command: &str) -> (r: bool)
    ensures
        r == (command@ == "capture"@),
{
    same_text(command, "capture")
}

/// The MQTT topic of a camera's commands.
pub open spec fn command_topic_of(camera: Seq<char>) -> Seq<char> {
    "commands/"@ + camera
}

/// The MQTT topic of a camera's commands: `commands/{camera}`.
pub fn command_topic(camera: &str) -> (t: String)
    ensures
        t@ == command_topic_of(camera@),
{
    concat2("commands/", camera)
}

/// The message for a command to a camera, sent at the time given as text.
pub fn command_payload(command: &str, camera: &str, timestamp: String) -> (p: CommandPayload)
    ensures
        p.command@ == command@,
        p.camera@ == camera@,
        p.timestamp == timestamp,
{
    CommandPayload { command: command.to_owned(), camera: camera.to_owned(), timestamp }
}

/// The message for a command to a camera, sent at the UTC instant `secs`
/// seconds and `nanos` nanoseconds after the Unix epoch; `None` when that
/// instant has no RFC 3339 text.
pub fn command_payload_at(command: &str, camera: &str, secs: i64, nanos: u32) -> (p: Option<CommandPayload>)
    ensures
        p is Some <==> rfc3339_text(secs, nanos) is Some,
        p matches Some(m) ==> m.command@ == command@ && m.camera@ == camera@ && rfc3339_text(
            secs,
            nanos,
        ) == Some(m.timestamp@),
{
    match rfc3339_utc(secs, nanos) {
        Some(t) => Some(command_payload(command, camera, t)),
        None => None,
    }
}

/// The reply when publishing fails: status 500, `MQTT publish failed: {detail}`.
pub fn publish_failed(detail: &str) -> (e: ApiError)
    ensures
        is_error(e, INTERNAL_SERVER_ERROR, "MQTT publish failed: "@ + detail@),
{
    let message = concat2("MQTT publish failed: ", detail);
    api_error(INTERNAL_SERVER_ERROR, message.as_str())
}

/// The reply to a command that was sent: status `sent`, the camera, the command.
pub fn command_sent(camera: String, command: String) -> (r: CommandResponse)
    ensures
        r.status@ == "sent"@,
        r.camera == camera,
        r.command == command,
{
    CommandResponse { status: "sent".to_owned(), camera, command }
}

/// The commands a camera accepts are exactly three: `capture`, `status` and
/// `ping`; every other text is refused with status 400.
pub proof fn lemma_accepted_commands(command: Seq<char>)
    ensures
        Set::new(|c: Seq<char>| allowed_command(c)) == set!["capture"@, "status"@, "ping"@],
        allowed_command(command) <==> (command == "capture"@ || command == "status"@ || command
            == "ping"@),
{
    assert(Set::new(|c: Seq<char>| allowed_command(c)) =~= set!["capture"@, "status"@, "ping"@]);
}

} // verus!
