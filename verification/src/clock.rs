//! The crate's few ties to the clock, the local time zone and the calendar,
//! all through chrono. Timestamp parsing is a pure function of the string and
//! gets a name; what depends on the clock or the zone is left unpinned, and
//! the logic that consumes those values is verified for every value.

use vstd::prelude::*;

verus! {

/// What chrono reads out of an RFC 3339 timestamp string: milliseconds since
/// the Unix epoch, or nothing if the string does not parse. A function of the
/// characters alone.
pub uninterp spec fn epoch_millis_of(s: Seq<char>) -> Option<i64>;

/// Relies on chrono's `DateTime::parse_from_rfc3339` and `timestamp_millis`.
/// chrono's dates span years within about ±262000, so a parsed instant lies
/// well within ±2^54 milliseconds of the epoch.
#[verifier::external_body]
pub fn parse_timestamp_millis(s: &str) -> (r: Option<i64>)
    ensures
        r == epoch_millis_of(s@),
        r matches Some(m) ==> -0x40000000000000 <= m <= 0x40000000000000,
{
    match chrono::DateTime::parse_from_rfc3339(s) {
        Ok(dt) => Some(dt.timestamp_millis()),
        Err(_) => None,
    }
}

/// Relies on chrono's `Utc::now` and `timestamp_millis`: the clock reading is
/// not pinned, but it lies within chrono's representable range. Like every
/// use of chrono's clock, this panics if the system clock reads an instant
/// chrono cannot represent (before the Unix epoch or beyond its year range).
#[verifier::external_body]
pub fn now_millis() -> (r: i64)
    ensures
        -0x40000000000000 <= r <= 0x40000000000000,
{
    chrono::Utc::now().timestamp_millis()
}

/// Relies on chrono's `Utc::now` and `to_rfc3339`. Nothing is promised of
/// the clock's reading; not even that the stamp parses back, since the
/// strict RFC 3339 parser takes only four-digit years while the clock could
/// in principle read beyond them. Panics if the system clock reads an
/// instant chrono cannot represent.
#[verifier::external_body]
pub fn now_rfc3339() -> String {
    chrono::Utc::now().to_rfc3339()
}

/// Relies on chrono's `DateTime::parse_from_rfc3339`, `with_timezone` into
/// `Local`, `date_naive` and `num_days_from_ce`: the local calendar day of a
/// timestamp. The day depends on the machine's time zone, so only the
/// success of the parse — a function of the string — is pinned.
#[verifier::external_body]
pub fn local_day_of(s: &str) -> (r: Option<i64>)
    ensures
        r is Some <==> epoch_millis_of(s@) is Some,
{
    match chrono::DateTime::parse_from_rfc3339(s) {
        Ok(dt) => {
            let d = dt.with_timezone(&chrono::Local).date_naive();
            Some(chrono::Datelike::num_days_from_ce(&d) as i64)
        },
        Err(_) => None,
    }
}

/// Relies on chrono's `Local::now`, date arithmetic with `Duration::days`,
/// `date_naive`, `NaiveDate::from_ymd_opt` and `num_days_from_ce`: the local
/// calendar day numbers of today, of the instant a week ago, and of the
/// first of the current month. All three depend on the clock and the
/// machine's time zone, so none is pinned. The "a week ago" and "first of
/// the month" rules live in this trusted body on purpose: they are
/// local-calendar arithmetic, which only chrono's zone tables can do;
/// day-number arithmetic outside would drift at zone transitions. Panics if
/// the system clock reads an instant chrono cannot represent.
#[verifier::external_body]
pub fn local_day_bounds() -> (r: (i64, i64, i64))
{
    let now = chrono::Local::now();
    let today_date = now.date_naive();
    let today = chrono::Datelike::num_days_from_ce(&today_date) as i64;
    let week = chrono::Datelike::num_days_from_ce(&(now - chrono::Duration::days(7)).date_naive())
        as i64;
    let month = chrono::NaiveDate::from_ymd_opt(
        chrono::Datelike::year(&now),
        chrono::Datelike::month(&now),
        1,
    ).map(|d| chrono::Datelike::num_days_from_ce(&d) as i64).unwrap_or(today);
    (today, week, month)
}

} // verus!
