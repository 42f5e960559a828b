//! Points in time, in seconds since the Unix epoch, and the calendar.

use chrono::Datelike;
use vstd::prelude::*;

verus! {

/// The last second that the calendar reaches.
pub const LAST_SECOND: i64 = 8_210_266_876_799;

/// The first second that the calendar reaches.
pub const FIRST_SECOND: i64 = -8_334_601_228_800;

/// The seconds of a day.
pub const DAY_SECONDS: i64 = 86_400;

/// Whether the calendar reaches a second.
pub open spec fn in_calendar(second: int) -> bool {
    FIRST_SECOND <= second <= LAST_SECOND
}

/// Whether the calendar reaches a second.
pub fn is_in_calendar(second: i64) -> (r: bool)
    ensures
        r == in_calendar(second as int),
{
    FIRST_SECOND <= second && second <= LAST_SECOND
}

/// `chrono::Utc::now` reads the clock of the machine; its time stamp is a
/// second that the calendar reaches, not before the epoch.
#[verifier::external_body]
pub(crate) fn now() -> (r: i64)
    ensures
        0 <= r <= LAST_SECOND,
{
    chrono::Utc::now().timestamp()
}

/// `chrono::DateTime + chrono::TimeDelta` with a whole number of days moves a
/// time stamp by that many times 86400 seconds. It panics outside of the
/// calendar, which the precondition leaves out.
#[verifier::external_body]
pub(crate) fn add_days(second: i64, days: u32) -> (r: i64)
    requires
        in_calendar(second as int),
        in_calendar(second + days * DAY_SECONDS),
    ensures
        r == second + days * DAY_SECONDS,
{
    let start = chrono::DateTime::<chrono::Utc>::from_timestamp(second, 0).unwrap();
    (start + chrono::Duration::days(days.into())).timestamp()
}

/// The first second of the calendar month (UTC) that a second falls in.
pub uninterp spec fn month_start_of(second: int) -> int;

/// `chrono::Datelike::with_day` at day 1, at midnight: the first second of the
/// month of a time stamp. It is not later than the time stamp, at most 31 days
/// earlier, and a midnight.
#[verifier::external_body]
pub(crate) fn month_start(second: i64) -> (r: i64)
    requires
        in_calendar(second as int),
    ensures
        r == month_start_of(second as int),
        r <= second < r + 31 * DAY_SECONDS,
        r as int % DAY_SECONDS as int == 0,
{
    let date = chrono::DateTime::<chrono::Utc>::from_timestamp(second, 0).unwrap().date_naive();
    date.with_day(1).unwrap().and_hms_opt(0, 0, 0).unwrap().and_utc().timestamp()
}

/// The date (UTC) of a second as year, month and day without separators.
pub uninterp spec fn date_stamp_of(second: int) -> Seq<char>;

/// `chrono::DateTime::format` with `%Y%m%d`.
#[verifier::external_body]
pub(crate) fn date_stamp(second: i64) -> (r: String)
    requires
        in_calendar(second as int),
    ensures
        r@ == date_stamp_of(second as int),
{
    let moment = chrono::DateTime::<chrono::Utc>::from_timestamp(second, 0).unwrap();
    moment.format("%Y%m%d").to_string()
}

} // verus!
