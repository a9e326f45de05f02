//! Clock and time-zone helpers.
use vstd::prelude::*;

use chrono::{TimeZone, Timelike};
use std::time::{Duration, SystemTime};

verus! {

#[verifier::external_type_specification]
#[verifier::external_body]
pub struct ExSystemTime(std::time::SystemTime);

/// `SystemTime::now`: the wall clock. Nothing is claimed of the value.
#[verifier::external_body]
fn system_now() -> SystemTime {
    SystemTime::now()
}

/// `SystemTime::duration_since(UNIX_EPOCH)`, with its error (a clock before
/// the epoch) as `None`. Nothing is claimed of the value.
#[verifier::external_body]
fn since_epoch(t: &SystemTime) -> Option<Duration> {
    t.duration_since(std::time::UNIX_EPOCH).ok()
}

/// `Duration::as_secs`: whole seconds. Nothing is claimed of the value, as
/// the duration is opaque here.
#[verifier::external_body]
pub(crate) fn whole_secs(d: &Duration) -> u64 {
    d.as_secs()
}

/// The Unix time of a clock reading, given as the whole seconds since the
/// epoch (`None` for a reading before 1970): those seconds as an `i64`
/// (wrapping past `i64::MAX`, as `as` does), or 0 before the epoch.
pub fn timestamp_of(since_epoch_secs: Option<u64>) -> (t: i64)
    ensures
        t == (match since_epoch_secs {
            Some(s) => s as i64,
            None => 0,
        }),
{
    match since_epoch_secs {
        Some(s) => {
            #[verifier::truncate]
            (s as i64)
        },
        None => 0,
    }
}

/// The current Unix time in seconds; 0 when the clock reads before 1970.
/// It is `timestamp_of` of whatever the clock reads, so nothing more can be
/// said of the value.
pub fn unix_timestamp() -> i64 {
    let secs = match since_epoch(&system_now()) {
        Some(d) => Some(whole_secs(&d)),
        None => None,
    };
    timestamp_of(secs)
}

/// The hour of the day of a Unix time at a fixed offset, by the calendar
/// arithmetic: Euclidean remainder of the shifted time by a day, in hours.
pub open spec fn hour_at(ts: i64, offset_secs: int) -> int {
    ((ts + offset_secs) % 86400) / 3600
}

/// Whether a Unix time lies inside the calendar range of `chrono` (years
/// -262143 to 262142).
pub open spec fn in_calendar_range(ts: i64) -> bool {
    crate::smy::chrono_min_ts() <= ts <= crate::smy::chrono_max_ts()
}

/// `FixedOffset::east_opt(offset_secs)`, then `timestamp_opt(ts, 0).single()`,
/// then `Timelike::hour`. Claims: an hour is returned exactly for the times
/// inside the calendar range (`timestamp_opt` goes through
/// `DateTime::from_timestamp`), and it is the calendar hour at that offset.
/// `east_opt` accepts the offset by the `requires`, so it is not `None` there.
#[verifier::external_body]
fn chrono_hour(ts: i64, offset_secs: i32) -> (r: Option<u32>)
    requires
        -86400 < offset_secs < 86400,
    ensures
        r matches Some(h) ==> h == hour_at(ts, offset_secs as int),
        r is Some <==> in_calendar_range(ts),
{
    chrono::FixedOffset::east_opt(offset_secs)
        .and_then(|tz| tz.timestamp_opt(ts, 0).single())
        .map(|dt| dt.hour())
}

/// The hour (0–23) of a Unix time in the zone `UTC + offset_hours`; 0 when
/// the time lies outside the calendar's range.
pub fn hour_of_day(ts: i64, offset_hours: i32) -> (h: u32)
    requires
        -24 < offset_hours < 24,
    ensures
        h < 24,
        h == (if in_calendar_range(ts) { hour_at(ts, offset_hours * 3600) } else { 0 }),
{
    let secs = offset_hours * 3600;
    match chrono_hour(ts, secs) {
        Some(h) => h,
        None => 0,
    }
}

} // verus!
