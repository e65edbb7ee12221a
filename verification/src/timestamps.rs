//! Points in time and calendar days, as plain numbers, and the calls into
//! `chrono` that read and print them.

use vstd::prelude::*;

verus! {

/// A point in time: whole seconds since the Unix epoch, and the nanoseconds
/// past that second (which reach beyond one second only inside a leap second).
#[derive(Clone, Copy, Debug, PartialEq, Eq)]
pub struct Instant {
    pub secs: i64,
    pub nanos: u32,
}

/// A calendar day: its number in the proleptic Gregorian calendar, where
/// 1 January of year 1 is day 1, and how many days after Monday it falls.
#[derive(Clone, Copy, Debug, PartialEq, Eq)]
pub struct Today {
    pub day: i32,
    pub days_from_monday: u32,
}

impl Today {
    /// A weekday lies zero to six days after Monday.
    pub open spec fn valid(&self) -> bool {
        self.days_from_monday < 7
    }
}

/// The largest number of whole seconds a span of time can measure.
pub open spec fn max_span_seconds() -> int {
    i64::MAX / 1000
}

/// The instant that an RFC 3339 date-and-time text denotes, as seconds and
/// nanoseconds, or `None` where the text is not valid RFC 3339.
pub uninterp spec fn rfc3339_instant(text: Seq<char>) -> Option<(int, int)>;

/// The whole seconds from one instant to another, each given as seconds and
/// nanoseconds, or `None` where either lies outside the representable range.
pub uninterp spec fn elapsed_seconds(
    start_secs: int,
    start_nanos: int,
    end_secs: int,
    end_nanos: int,
) -> Option<int>;

/// The text `YYYY-MM-DD` of a day number, or `None` where the day lies outside
/// the representable range.
pub uninterp spec fn ymd_text(day: int) -> Option<Seq<char>>;

/// Parses RFC 3339 text with `chrono::DateTime::parse_from_rfc3339` and reads
/// the result's `timestamp` and `timestamp_subsec_nanos`. The contract only
/// names the outcome: equal texts denote equal instants.
#[verifier::external_body]
pub(crate) fn parse_rfc3339(text: &str) -> (parsed: Option<Instant>)
    ensures
        match parsed {
            Some(at) => rfc3339_instant(text@) == Some((at.secs as int, at.nanos as int)),
            None => rfc3339_instant(text@).is_none(),
        },
{
    match chrono::DateTime::parse_from_rfc3339(text) {
        Ok(at) => Some(Instant { secs: at.timestamp(), nanos: at.timestamp_subsec_nanos() }),
        Err(_) => None,
    }
}

/// Measures the span between two instants: rebuilds both with
/// `chrono::DateTime::from_timestamp`, subtracts with `signed_duration_since`
/// and takes `num_seconds`. The contract names the outcome and bounds it by
/// the largest span `chrono::TimeDelta` holds, `i64::MAX` milliseconds.
#[verifier::external_body]
pub(crate) fn whole_seconds_between(start: Instant, end: Instant) -> (span: Option<i64>)
    ensures
        span.is_some() == elapsed_seconds(
            start.secs as int,
            start.nanos as int,
            end.secs as int,
            end.nanos as int,
        ).is_some(),
        span matches Some(secs) ==> elapsed_seconds(
            start.secs as int,
            start.nanos as int,
            end.secs as int,
            end.nanos as int,
        ) == Some(secs as int) && -max_span_seconds() - 1 <= secs <= max_span_seconds(),
{
    let from = chrono::DateTime::from_timestamp(start.secs, start.nanos)?;
    let to = chrono::DateTime::from_timestamp(end.secs, end.nanos)?;
    Some(to.signed_duration_since(from).num_seconds())
}

/// The current time in the local zone as RFC 3339 text: the clock is read
/// with `std::time::SystemTime::now`, turned into a `chrono::DateTime` of the
/// local zone by chrono's conversion from system time (which also takes a
/// clock set before 1970), and written with `to_rfc3339`. Nothing is
/// promised of it.
#[verifier::external_body]
pub(crate) fn local_now_rfc3339() -> (text: String) {
    chrono::DateTime::<chrono::Local>::from(std::time::SystemTime::now()).to_rfc3339()
}

/// The current day in the local zone: the clock is read with
/// `std::time::SystemTime::now` and turned into a `chrono::DateTime` of the
/// local zone by chrono's conversion from system time (which also takes a
/// clock set before 1970); of its date come `num_days_from_ce` and the
/// weekday's `num_days_from_monday`, which is documented to lie between zero
/// (Monday) and six (Sunday).
#[verifier::external_body]
pub(crate) fn local_today() -> (today: Today)
    ensures
        today.valid(),
{
    let now = chrono::DateTime::<chrono::Local>::from(std::time::SystemTime::now());
    let date = now.date_naive();
    Today {
        day: chrono::Datelike::num_days_from_ce(&date),
        days_from_monday: chrono::Datelike::weekday(&date).num_days_from_monday(),
    }
}

/// Prints a day number as `YYYY-MM-DD`: `chrono::NaiveDate::from_num_days_from_ce_opt`
/// and `format("%Y-%m-%d")`. The contract only names the outcome.
#[verifier::external_body]
pub(crate) fn format_ymd(day: i32) -> (text: Option<String>)
    ensures
        match text {
            Some(t) => ymd_text(day as int) == Some(t@),
            None => ymd_text(day as int).is_none(),
        },
{
    match chrono::NaiveDate::from_num_days_from_ce_opt(day) {
        Some(date) => Some(date.format("%Y-%m-%d").to_string()),
        None => None,
    }
}

} // verus!
