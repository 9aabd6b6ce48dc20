//! The health report.

use vstd::prelude::*;

verus! {

/// The date and time that `chrono` writes with `DateTime::to_rfc3339` for
/// the instant `secs` seconds and `nanos` nanoseconds after the Unix epoch,
/// seen `offset` seconds east of UTC; nothing where the instant or the
/// offset is out of `chrono`'s range.
pub uninterp spec fn rfc3339_of(secs: i64, nanos: u32, offset: i32) -> Option<Seq<char>>;

/// The text of an optional string.
pub open spec fn text_of_time(r: Option<String>) -> Option<Seq<char>> {
    match r {
        Some(s) => Some(s@),
        None => None,
    }
}

/// Makes the instant with `DateTime::from_timestamp` and the zone with
/// `FixedOffset::east_opt`, moves the instant into the zone with
/// `with_timezone` and writes it with `to_rfc3339`. The result depends on
/// the three numbers alone.
#[verifier::external_body]
fn rfc3339_at(secs: i64, nanos: u32, offset: i32) -> (r: Option<String>)
    ensures
        text_of_time(r) == rfc3339_of(secs, nanos, offset),
{
    let instant = chrono::DateTime::from_timestamp(secs, nanos)?;
    let zone = chrono::FixedOffset::east_opt(offset)?;
    Some(instant.with_timezone(&zone).to_rfc3339())
}

/// The offset of the zone in which the report gives its time: three hours
/// east of UTC.
pub const REPORT_OFFSET: i32 = 10800;

/// The health report of the service.
#[derive(Clone, Debug, PartialEq, Eq)]
pub struct ServerStatus {
    pub name: String,
    pub version: String,
    pub status: String,
    pub documentation: String,
    pub last_updated: String,
}

/// The report says the fixed name, state and documentation link of the
/// service, the given version and the given time.
pub open spec fn reports(s: ServerStatus, version: Seq<char>, time: Seq<char>) -> bool {
    &&& s.name@ == "BesinVeri API"@
    &&& s.version@ == version
    &&& s.status@ == "iyi"@
    &&& s.documentation@ == "https://github.com/karahanbuhan/besinveri"@
    &&& s.last_updated@ == time
}

/// The health report for a version and a time that is already written
/// out.
pub fn status_at(version: &str, last_updated: String) -> (r: ServerStatus)
    ensures
        reports(r, version@, last_updated@),
{
    ServerStatus {
        name: "BesinVeri API".to_owned(),
        version: version.to_owned(),
        status: "iyi".to_owned(),
        documentation: "https://github.com/karahanbuhan/besinveri".to_owned(),
        last_updated,
    }
}

/// `GET /health`: the health report at the instant `secs` seconds and
/// `nanos` nanoseconds after the Unix epoch, its time written for the zone
/// three hours east of UTC; none for an instant that cannot be written.
pub fn get_status_handler(version: &str, secs: i64, nanos: u32) -> (r: Option<ServerStatus>)
    ensures
        match rfc3339_of(secs, nanos, REPORT_OFFSET) {
            Some(time) => r matches Some(s) && reports(s, version@, time),
            None => r is None,
        },
{
    match rfc3339_at(secs, nanos, REPORT_OFFSET) {
        Some(time) => Some(status_at(version, time)),
        None => None,
    }
}

} // verus!
