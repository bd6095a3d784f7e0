//! Reading of log timestamps, through the `chrono` crate.

use vstd::prelude::*;
use vstd::string::StringExecFns;
use chrono::{DateTime, NaiveDateTime};

verus! {

/// A moment as `chrono` holds it for a `DateTime<Utc>`: whole seconds since
/// the Unix epoch, and nanoseconds past that second (a leap second counts
/// from 1_000_000_000 on).
pub struct LogTime {
    pub secs: i64,
    pub nanos: u32,
}

/// The plain value of an optional moment.
pub open spec fn log_time_view(t: Option<LogTime>) -> Option<(i64, u32)> {
    match t {
        Some(t) => Some((t.secs, t.nanos)),
        None => None,
    }
}

/// What `NaiveDateTime::parse_from_str` of `chrono` reads from `s` with the
/// format `fmt`, as seconds and nanoseconds of that moment taken as UTC
/// (`and_utc`, `timestamp`, `timestamp_subsec_nanos`); `None` where it
/// refuses `s`.
pub uninterp spec fn chrono_parse(s: Seq<char>, fmt: Seq<char>) -> Option<(i64, u32)>;

/// How many whole seconds, rounded toward zero, `later` lies after
/// `earlier`, as `signed_duration_since` and `num_seconds` of `chrono`
/// count them (leap seconds included); `None` where
/// `DateTime::from_timestamp` does not take one of the two moments back.
pub uninterp spec fn chrono_seconds_between(later: (i64, u32), earlier: (i64, u32)) -> Option<i64>;

/// `NaiveDateTime::parse_from_str(s, fmt)` of `chrono`, the result taken as
/// UTC and handed back as seconds and nanoseconds. Claimed: the result is
/// `chrono_parse` of the two arguments.
#[verifier::external_body]
fn parse_with_format(s: &str, fmt: &str) -> (r: Option<LogTime>)
    ensures
        log_time_view(r) == chrono_parse(s@, fmt@),
{
    NaiveDateTime::parse_from_str(s, fmt).ok().map(
        |dt| {
            let t = dt.and_utc();
            LogTime { secs: t.timestamp(), nanos: t.timestamp_subsec_nanos() }
        },
    )
}

/// `DateTime::from_timestamp` of `chrono` rebuilds both moments, and
/// `signed_duration_since` with `num_seconds` counts the whole seconds from
/// `earlier` to `later`. Claimed: the result is `chrono_seconds_between` of
/// the two moments.
#[verifier::external_body]
pub(crate) fn seconds_between(later: &LogTime, earlier: &LogTime) -> (r: Option<i64>)
    ensures
        r == chrono_seconds_between((later.secs, later.nanos), (earlier.secs, earlier.nanos)),
{
    let a = DateTime::from_timestamp(later.secs, later.nanos)?;
    let b = DateTime::from_timestamp(earlier.secs, earlier.nanos)?;
    Some(a.naive_utc().signed_duration_since(b.naive_utc()).num_seconds())
}

/// The format of `auth.log` and `syslog` timestamps such as
/// `May  6 09:16:01`, once a year has been added at their end.
pub const SYSLOG_FORMAT: &'static str = "%b %_d %H:%M:%S %Y";

/// The format of access log timestamps such as `06/May/2026:09:10:01 +0000`.
pub const ACCESS_LOG_FORMAT: &'static str = "%d/%b/%Y:%H:%M:%S %z";

/// The year added to `auth.log` and `syslog` timestamps, which write none.
pub const LOG_YEAR_SUFFIX: &'static str = " 2026";

/// The moment that a log timestamp names: read as a syslog timestamp in
/// 2026, or else as an access log timestamp.
pub open spec fn timestamp_spec(ts: Seq<char>) -> Option<(i64, u32)> {
    match chrono_parse(ts + LOG_YEAR_SUFFIX@, SYSLOG_FORMAT@) {
        Some(t) => Some(t),
        None => chrono_parse(ts, ACCESS_LOG_FORMAT@),
    }
}

/// The moment that a log timestamp names: `ts` is read as an `auth.log` or
/// `syslog` timestamp of the year 2026, or else as an access log timestamp.
pub fn parse_timestamp(ts: &str) -> (r: Option<LogTime>)
    ensures
        log_time_view(r) == timestamp_spec(ts@),
{
    let mut with_year = crate::text::copy_str(ts);
    with_year.append(LOG_YEAR_SUFFIX);
    match parse_with_format(with_year.as_str(), SYSLOG_FORMAT) {
        Some(t) => Some(t),
        None => parse_with_format(ts, ACCESS_LOG_FORMAT),
    }
}

} // verus!
