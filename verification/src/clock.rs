use vstd::prelude::*;

verus! {

/// The instant that chrono's RFC 3339 parser reads from `text`, in
/// milliseconds since the Unix epoch, or `None` when it rejects the text.
pub uninterp spec fn rfc3339_millis(text: Seq<char>) -> Option<i64>;

/// The instant that chrono reads from `text` with the `strftime`-style
/// `format`, the fields taken as UTC, in milliseconds since the Unix epoch.
pub uninterp spec fn utc_datetime_millis(text: Seq<char>, format: Seq<char>) -> Option<i64>;

/// The day that chrono reads from `text` with the `strftime`-style
/// `format`, at midnight UTC, in milliseconds since the Unix epoch.
pub uninterp spec fn utc_date_millis(text: Seq<char>, format: Seq<char>) -> Option<i64>;

/// The first of two readings that gives an instant.
pub open spec fn first_of(a: Option<i64>, b: Option<i64>) -> Option<i64> {
    match a {
        Some(t) => Some(t),
        None => b,
    }
}

/// The instant a stored `created_at` text denotes: an RFC 3339 timestamp (as
/// the application writes them), else one of the forms SQLite reads as a
/// time in UTC: `YYYY-MM-DD HH:MM:SS` with an optional fraction of a
/// second, `YYYY-MM-DD HH:MM`, either with `T` in place of the space, or a
/// bare `YYYY-MM-DD` (its midnight).
pub open spec fn timestamp_of(text: Seq<char>) -> Option<i64> {
    first_of(rfc3339_millis(text),
    first_of(utc_datetime_millis(text, "%Y-%m-%d %H:%M:%S%.f"@),
    first_of(utc_datetime_millis(text, "%Y-%m-%dT%H:%M:%S%.f"@),
    first_of(utc_datetime_millis(text, "%Y-%m-%d %H:%M"@),
    first_of(utc_datetime_millis(text, "%Y-%m-%dT%H:%M"@),
    utc_date_millis(text, "%Y-%m-%d"@))))))
}

/// `chrono::DateTime::parse_from_rfc3339(text)`, the instant as
/// `timestamp_millis()`. The contract only names the result.
#[verifier::external_body]
fn parse_rfc3339_millis(text: &str) -> (r: Option<i64>)
    ensures
        r == rfc3339_millis(text@),
{
    chrono::DateTime::parse_from_rfc3339(text).ok().map(|d| d.timestamp_millis())
}

/// `chrono::NaiveDateTime::parse_from_str(text, format)` read as UTC, the
/// instant as `timestamp_millis()`. The contract only names the result.
#[verifier::external_body]
fn parse_utc_datetime_millis(text: &str, format: &str) -> (r: Option<i64>)
    ensures
        r == utc_datetime_millis(text@, format@),
{
    chrono::NaiveDateTime::parse_from_str(text, format).ok().map(|d| d.and_utc().timestamp_millis())
}

/// `chrono::NaiveDate::parse_from_str(text, format)` at midnight UTC, the
/// instant as `timestamp_millis()`. The contract only names the result.
#[verifier::external_body]
fn parse_utc_date_millis(text: &str, format: &str) -> (r: Option<i64>)
    ensures
        r == utc_date_millis(text@, format@),
{
    chrono::NaiveDate::parse_from_str(text, format).ok().map(|d| d.and_time(chrono::NaiveTime::MIN).and_utc().timestamp_millis())
}

/// The instant that a stored timestamp text denotes.
pub fn parse_timestamp_millis(text: &str) -> (r: Option<i64>)
    ensures
        r == timestamp_of(text@),
{
    if let Some(t) = parse_rfc3339_millis(text) {
        return Some(t);
    }
    if let Some(t) = parse_utc_datetime_millis(text, "%Y-%m-%d %H:%M:%S%.f") {
        return Some(t);
    }
    if let Some(t) = parse_utc_datetime_millis(text, "%Y-%m-%dT%H:%M:%S%.f") {
        return Some(t);
    }
    if let Some(t) = parse_utc_datetime_millis(text, "%Y-%m-%d %H:%M") {
        return Some(t);
    }
    if let Some(t) = parse_utc_datetime_millis(text, "%Y-%m-%dT%H:%M") {
        return Some(t);
    }
    parse_utc_date_millis(text, "%Y-%m-%d")
}

/// The current time, `chrono::Utc::now().timestamp_millis()`. Nothing is
/// promised of the value: it is whatever the system clock reads.
#[verifier::external_body]
pub(crate) fn current_time_millis() -> i64 {
    chrono::Utc::now().timestamp_millis()
}

/// The current local time as `chrono::Local::now().to_rfc3339()`. Nothing is
/// promised of the text: it depends on the clock and the time zone.
#[verifier::external_body]
pub(crate) fn current_local_rfc3339() -> String {
    chrono::Local::now().to_rfc3339()
}

} // verus!
