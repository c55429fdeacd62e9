//! A plain-value model of the Gregorian calendar clock: a `Moment` is a local
//! wall-clock reading broken into year, month, day and time of day. The
//! schedule engine works on these values only; the one place the real clock is
//! read is `local_now`.

use chrono::{Datelike, Timelike};
use vstd::prelude::*;

verus! {

/// Lowest year a `Moment` may carry; matches the range chrono can produce.
pub const MIN_YEAR: i64 = -262144;

/// Highest year a `Moment` may carry; matches the range chrono can produce.
pub const MAX_YEAR: i64 = 262143;

/// Seconds in a civil day.
pub const SECONDS_PER_DAY: u32 = 86400;

pub open spec fn spec_is_leap_year(year: int) -> bool {
    (year % 4 == 0 && year % 100 != 0) || year % 400 == 0
}

pub open spec fn spec_days_in_month(year: int, month: int) -> int {
    if month == 2 {
        if spec_is_leap_year(year) {
            29
        } else {
            28
        }
    } else if month == 4 || month == 6 || month == 9 || month == 11 {
        30
    } else {
        31
    }
}

/// Offsets of Sakamoto's method, one per month.
pub open spec fn spec_month_offset(month: int) -> int {
    seq![0int, 3, 2, 5, 0, 3, 5, 1, 4, 6, 2, 4][month - 1]
}

/// Day of the week of a civil date, numbered 0 = Monday .. 6 = Sunday.
pub open spec fn spec_weekday(year: int, month: int, day: int) -> int {
    let y = if month < 3 { year - 1 } else { year };
    let sunday0 = (y + y / 4 - y / 100 + y / 400 + spec_month_offset(month) + day) % 7;
    (sunday0 + 6) % 7
}

/// A local wall-clock reading as plain calendar fields.
#[derive(Clone, Copy, Debug, PartialEq, Eq, Structural)]
pub struct Moment {
    pub year: i64,
    pub month: u8,
    pub day: u8,
    pub hour: u8,
    pub minute: u8,
    pub second: u8,
}

impl Moment {
    /// A `Moment` is a valid calendar date with a valid time of day.
    pub open spec fn wf(self) -> bool {
        &&& MIN_YEAR <= self.year <= MAX_YEAR
        &&& 1 <= self.month <= 12
        &&& 1 <= self.day <= spec_days_in_month(self.year as int, self.month as int)
        &&& self.hour <= 23
        &&& self.minute <= 59
        &&& self.second <= 59
    }

    pub open spec fn spec_seconds_of_day(self) -> int {
        self.hour * 3600 + self.minute * 60 + self.second
    }

    /// Seconds elapsed since this day's midnight.
    pub fn seconds_of_day(&self) -> (s: u32)
        requires
            self.wf(),
        ensures
            s == self.spec_seconds_of_day(),
            s < SECONDS_PER_DAY,
    {
        self.hour as u32 * 3600 + self.minute as u32 * 60 + self.second as u32
    }
}

pub fn is_leap_year(year: i64) -> (r: bool)
    requires
        MIN_YEAR <= year <= MAX_YEAR,
    ensures
        r == spec_is_leap_year(year as int),
{
    let m4 = year.checked_rem_euclid(4);
    let m100 = year.checked_rem_euclid(100);
    let m400 = year.checked_rem_euclid(400);
    (m4 == Some(0) && m100 != Some(0)) || m400 == Some(0)
}

pub fn days_in_month(year: i64, month: u8) -> (d: u8)
    requires
        MIN_YEAR <= year <= MAX_YEAR,
        1 <= month <= 12,
    ensures
        d == spec_days_in_month(year as int, month as int),
        28 <= d <= 31,
{
    if month == 2 {
        if is_leap_year(year) {
            29
        } else {
            28
        }
    } else if month == 4 || month == 6 || month == 9 || month == 11 {
        30
    } else {
        31
    }
}

fn month_offset(month: u8) -> (o: u8)
    requires
        1 <= month <= 12,
    ensures
        o == spec_month_offset(month as int),
{
    let table: [u8; 12] = [0, 3, 2, 5, 0, 3, 5, 1, 4, 6, 2, 4];
    table[(month - 1) as usize]
}

/// Day of the week of a civil date, numbered 0 = Monday .. 6 = Sunday.
pub fn weekday_of(year: i64, month: u8, day: u8) -> (w: u8)
    requires
        MIN_YEAR <= year <= MAX_YEAR,
        1 <= month <= 12,
        1 <= day <= 31,
    ensures
        w == spec_weekday(year as int, month as int, day as int),
        w <= 6,
{
    let y: i64 = if month < 3 {
        year - 1
    } else {
        year
    };
    let q4 = match y.checked_div_euclid(4) {
        Some(v) => v,
        None => 0,
    };
    let q100 = match y.checked_div_euclid(100) {
        Some(v) => v,
        None => 0,
    };
    let q400 = match y.checked_div_euclid(400) {
        Some(v) => v,
        None => 0,
    };
    let total: i64 = y + q4 - q100 + q400 + month_offset(month) as i64 + day as i64;
    let sunday0 = match total.checked_rem_euclid(7) {
        Some(v) => v,
        None => 0,
    };
    let monday0 = match (sunday0 + 6).checked_rem_euclid(7) {
        Some(v) => v,
        None => 0,
    };
    monday0 as u8
}

/// Relies on chrono's `Local::now` and its `Datelike` / `Timelike` accessors:
/// the instant read is arbitrary, but chrono only builds valid Gregorian
/// dates, with month, day, hour, minute and second in their documented ranges
/// and the year within chrono's representable span.
#[verifier::external_body]
pub fn local_now() -> (m: Moment)
    ensures
        m.wf(),
{
    let now = chrono::Local::now();
    Moment {
        year: now.year() as i64,
        month: now.month() as u8,
        day: now.day() as u8,
        hour: now.hour() as u8,
        minute: now.minute() as u8,
        second: now.second() as u8,
    }
}

} // verus!
