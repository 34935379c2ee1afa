//! The camera device's settings: its broker, topic and MQTT client id.

use vstd::prelude::*;
use crate::clock::timestamp;
use crate::text::{concat3, decimal, decimal_text, same_text, text_or};

verus! {

/// The MQTT keep-alive interval, in seconds.
pub const KEEP_ALIVE_SECONDS: u64 = 30;

/// How many requests the MQTT client queues.
pub const REQUEST_CAPACITY: usize = 20;

/// How long the image publisher waits before it starts, in seconds.
pub const PUBLISHER_START_DELAY_SECONDS: u64 = 2;

/// The device's settings, each read from its environment variable or defaulted.
pub struct DeviceSettings {
    pub mode: String,
    pub device_id: String,
    pub aws_endpoint: String,
    pub s3_bucket: String,
    pub watch_dir: String,
}

/// Where the device connects: host, port, and whether over TLS.
pub struct Broker {
    pub host: String,
    pub port: u16,
    pub tls: bool,
}

/// The settings from the values of `MODE`, `DEVICE_ID`, `AWS_IOT_ENDPOINT`,
/// `S3_BUCKET` and `WATCH_DIR`, defaulting to `mock`, `cam01`, empty text,
/// `cam01-images` and `/app/snapshots`.
pub fn device_settings(
    mode: Option<String>,
    device_id: Option<String>,
    aws_endpoint: Option<String>,
    s3_bucket: Option<String>,
    watch_dir: Option<String>,
) -> (s: DeviceSettings)
    ensures
        s.mode@ == (match mode {
            Some(v) => v@,
            None => "mock"@,
        }),
        s.device_id@ == (match device_id {
            Some(v) => v@,
            None => "cam01"@,
        }),
        s.aws_endpoint@ == (match aws_endpoint {
            Some(v) => v@,
            None => Seq::<char>::empty(),
        }),
        s.s3_bucket@ == (match s3_bucket {
            Some(v) => v@,
            None => "cam01-images"@,
        }),
        s.watch_dir@ == (match watch_dir {
            Some(v) => v@,
            None => "/app/snapshots"@,
        }),
{
    proof {
        reveal_strlit("");
    }
    DeviceSettings {
        mode: text_or(mode, "mock"),
        device_id: text_or(device_id, "cam01"),
        aws_endpoint: text_or(aws_endpoint, ""),
        s3_bucket: text_or(s3_bucket, "cam01-images"),
        watch_dir: text_or(watch_dir, "/app/snapshots"),
    }
}

/// The topic a device publishes its image events to.
pub open spec fn image_topic_of(device_id: Seq<char>) -> Seq<char> {
    "images/"@ + device_id + "/events"@
}

/// The topic a device publishes its image events to: `images/{device_id}/events`.
pub fn image_topic(device_id: &str) -> (t: String)
    ensures
        t@ == image_topic_of(device_id@),
{
    concat3("images/", device_id, "/events")
}

/// Whether an MQTT topic is matched by the listener's filter
/// `images/+/events`: `images/`, one topic level (no `/` in it), `/events`.
pub open spec fn matches_image_events_filter(topic: Seq<char>) -> bool {
    exists|level: Seq<char>| !level.contains('/') && topic == #[trigger] image_topic_of(level)
}

/// The backend listener receives the image events of every device whose id
/// is one topic level: the device's image topic matches `images/+/events`.
pub proof fn lemma_image_topic_reaches_listener(device_id: Seq<char>)
    requires
        !device_id.contains('/'),
    ensures
        matches_image_events_filter(image_topic_of(device_id)),
{
}

/// The broker of a mode: in mode `aws` the AWS IoT endpoint on port 8883 over
/// TLS, in any other mode `test.mosquitto.org` on port 1883 in the clear.
pub fn broker(settings: &DeviceSettings) -> (b: Broker)
    ensures
        settings.mode@ == "aws"@ ==> b.host@ == settings.aws_endpoint@ && b.port == 8883 && b.tls,
        settings.mode@ != "aws"@ ==> b.host@ == "test.mosquitto.org"@ && b.port == 1883 && !b.tls,
{
    if same_text(settings.mode.as_str(), "aws") {
        Broker { host: settings.aws_endpoint.clone(), port: 8883, tls: true }
    } else {
        Broker { host: "test.mosquitto.org".to_owned(), port: 1883, tls: false }
    }
}

/// The device's MQTT client id at a time in milliseconds: `{device_id}-{millis}`.
pub fn device_client_id(device_id: &str, millis: u128) -> (id: String)
    ensures
        id@ == device_id@ + "-"@ + decimal(millis as nat),
{
    let digits = decimal_text(millis);
    concat3(device_id, "-", digits.as_str())
}

/// The device's MQTT client id for a session started now; `None` when the
/// clock reads before the Unix epoch.
pub fn session_client_id(device_id: &str) -> (id: Option<String>)
    ensures
        id matches Some(t) ==> exists|ms: u128| t@ == device_id@ + "-"@ + #[trigger] decimal(ms as nat),
{
    match timestamp() {
        Some(ms) => Some(device_client_id(device_id, ms)),
        None => None,
    }
}

} // verus!
