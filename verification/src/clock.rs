//! The wall clock and RFC 3339 time stamps.

use vstd::prelude::*;

verus! {

/// The instant that an RFC 3339 text denotes, in whole seconds since the
/// Unix epoch, as `chrono` reads it; `None` for a text that is no RFC 3339
/// date and time.
pub uninterp spec fn rfc3339_seconds(s: Seq<char>) -> Option<int>;

/// `chrono::DateTime::parse_from_rfc3339` followed by `DateTime::timestamp`:
/// the instant depends on the text alone, and a text that does not parse
/// gives `None`.
#[verifier::external_body]
pub(crate) fn parse_rfc3339(s: &str) -> (r: Option<i64>)
    ensures
        match r {
            Some(t) => rfc3339_seconds(s@) == Some(t as int),
            None => rfc3339_seconds(s@) is None,
        },
{
    match chrono::DateTime::parse_from_rfc3339(s) {
        Ok(d) => Some(d.timestamp()),
        Err(_) => None,
    }
}

/// `chrono::Utc::now` rendered by `DateTime::to_rfc3339`. The result depends
/// on the system clock, so nothing is said of it.
#[verifier::external_body]
pub(crate) fn now_rfc3339() -> (r: String) {
    chrono::Utc::now().to_rfc3339()
}

/// `chrono::Utc::now` as whole seconds since the Unix epoch, by
/// `DateTime::timestamp`. The result depends on the system clock, so nothing
/// is said of it.
#[verifier::external_body]
pub(crate) fn now_unix() -> (r: i64) {
    chrono::Utc::now().timestamp()
}

/// A number of days that reaches back from any present day without leaving
/// the calendar.
pub const REACHABLE_DAYS: u32 = 90_000_000;

/// The instant `days` days before `chrono::Utc::now`, by
/// `DateTime::checked_sub_signed`, rendered by `DateTime::to_rfc3339`.
/// `checked_sub_signed` gives `None` only where the instant leaves
/// `chrono`'s range, which begins with the year 262144 BCE; `Utc::now`
/// gives no instant before 1970; and ninety million days are fewer than
/// 246,500 years. So up to [`REACHABLE_DAYS`] days back there is always an
/// instant. Which instant it is depends on the system clock, so nothing
/// more is said of it.
#[verifier::external_body]
pub(crate) fn rfc3339_days_ago(days: u32) -> (r: Option<String>)
    ensures
        days <= REACHABLE_DAYS ==> r is Some,
{
    let span = chrono::TimeDelta::days(days as i64);
    chrono::Utc::now().checked_sub_signed(span).map(|d| d.to_rfc3339())
}

} // verus!
