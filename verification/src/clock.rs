//! Time: the wall clock in milliseconds, and UTC timestamps written as text.

use vstd::prelude::*;

verus! {

/// The RFC 3339 text of the UTC instant `secs` seconds and `nanos`
/// nanoseconds after the Unix epoch, as chrono's `to_rfc3339` writes it;
/// `None` when chrono cannot represent the instant.
pub uninterp spec fn rfc3339_text(secs: i64, nanos: u32) -> Option<Seq<char>>;

/// The UTC time of day and date `secs` seconds after the Unix epoch, written
/// by chrono with the pattern `%Y%m%dT%H%M%S`; `None` when chrono cannot
/// represent the instant.
pub uninterp spec fn compact_utc_text(secs: i64) -> Option<Seq<char>>;

/// Calls chrono's `DateTime::<Utc>::from_timestamp` and then `to_rfc3339`.
/// Trusted: the text is `rfc3339_text(secs, nanos)`, a function of the
/// arguments alone (the offset is always UTC).
#[verifier::external_body]
pub(crate) fn rfc3339_utc(secs: i64, nanos: u32) -> (r: Option<String>)
    ensures
        r is Some <==> rfc3339_text(secs, nanos) is Some,
        r matches Some(t) ==> rfc3339_text(secs, nanos) == Some(t@),
{
    match chrono::DateTime::from_timestamp(secs, nanos) {
        Some(t) => Some(t.to_rfc3339()),
        None => None,
    }
}

/// Calls chrono's `DateTime::<Utc>::from_timestamp` and then
/// `format("%Y%m%dT%H%M%S")`. Trusted: the text is `compact_utc_text(secs)`, a
/// function of the argument alone.
#[verifier::external_body]
pub(crate) fn compact_utc(secs: i64) -> (r: Option<String>)
    ensures
        r is Some <==> compact_utc_text(secs) is Some,
        r matches Some(t) ==> compact_utc_text(secs) == Some(t@),
{
    match chrono::DateTime::from_timestamp(secs, 0) {
        Some(t) => Some(t.format("%Y%m%dT%H%M%S").to_string()),
        None => None,
    }
}

/// Reads the system clock with `SystemTime::now().duration_since(UNIX_EPOCH)`
/// and returns the whole seconds and the nanoseconds below a second, or
/// `None` when the clock reads before the Unix epoch (the `Err` of
/// `duration_since`). Trusted: the nanoseconds are below one second, as
/// `Duration::subsec_nanos` documents; nothing is stated of the value read,
/// which depends on the clock.
#[verifier::external_body]
fn clock_since_epoch() -> (r: Option<(u64, u32)>)
    ensures
        r matches Some(d) ==> d.1 < 1_000_000_000,
{
    match std::time::SystemTime::now().duration_since(std::time::UNIX_EPOCH) {
        Ok(d) => Some((d.as_secs(), d.subsec_nanos())),
        Err(_) => None,
    }
}

/// The whole milliseconds in `secs` seconds and `nanos` nanoseconds.
pub open spec fn millis_of(secs: u64, nanos: u32) -> int {
    secs * 1000 + nanos / 1_000_000
}

/// The whole milliseconds of a duration of `secs` seconds and `nanos`
/// nanoseconds, as `Duration::as_millis` counts them.
pub fn millis_since_epoch(secs: u64, nanos: u32) -> (ms: u128)
    requires
        nanos < 1_000_000_000,
    ensures
        ms == millis_of(secs, nanos),
{
    (secs as u128) * 1000 + ((nanos / 1_000_000) as u128)
}

/// The wall-clock time in milliseconds since the Unix epoch, counted as
/// `Duration::as_millis` counts them; `None` when the clock reads before the
/// epoch.
pub fn timestamp() -> (ms: Option<u128>)
    ensures
        ms matches Some(m) ==> exists|secs: u64, nanos: u32|
            nanos < 1_000_000_000 && m == #[trigger] millis_of(secs, nanos),
{
    match clock_since_epoch() {
        Some((secs, nanos)) => {
            let m = millis_since_epoch(secs, nanos);
            assert(m == millis_of(secs, nanos));
            Some(m)
        },
        None => None,
    }
}

} // verus!
