//! The monitoring schedule as configured: days of the year on which monitoring
//! is disabled, and per-weekday monitoring windows. Weekdays are numbered
//! 0 = Monday .. 6 = Sunday; times of day are seconds since midnight, with
//! 86400 standing for the end of the day (24:00).

use vstd::prelude::*;

verus! {

/// One calendar-exclusion rule: either the `week`-th weekday `day` of `month`
/// (for example the 3rd Monday of March), or the fixed `day` of `month`.
#[derive(Clone, Copy, Debug, PartialEq, Eq, Structural)]
pub enum Date {
    MonthWeekDay { month: u8, week: u8, day: u8 },
    MonthDay { month: u8, day: u8 },
}

impl Date {
    pub fn month(&self) -> (m: u8)
        ensures
            m == match *self {
                Date::MonthWeekDay { month, .. } => month,
                Date::MonthDay { month, .. } => month,
            },
    {
        match *self {
            Date::MonthWeekDay { month, week: _, day: _ } => month,
            Date::MonthDay { month, day: _ } => month,
        }
    }

    pub fn week(&self) -> (w: Option<u8>)
        ensures
            w == match *self {
                Date::MonthWeekDay { week, .. } => Some(week),
                Date::MonthDay { .. } => None::<u8>,
            },
    {
        match *self {
            Date::MonthWeekDay { month: _, week, day: _ } => Some(week),
            Date::MonthDay { month: _, day: _ } => None,
        }
    }

    /// For a `MonthWeekDay` rule the day of the week; for a `MonthDay` rule
    /// the day of the month.
    pub fn day(&self) -> (d: u8)
        ensures
            d == match *self {
                Date::MonthWeekDay { day, .. } => day,
                Date::MonthDay { day, .. } => day,
            },
    {
        match *self {
            Date::MonthWeekDay { month: _, week: _, day } => day,
            Date::MonthDay { month: _, day } => day,
        }
    }
}

/// The monitoring window of one weekday: monitoring runs from `start`
/// (inclusive) to `stop` (exclusive), both in seconds since midnight.
#[derive(Clone, Copy, Debug, PartialEq, Eq, Structural)]
pub struct Hours {
    pub weekday: u8,
    pub start: u32,
    pub stop: u32,
}

impl Hours {
    pub fn new(weekday: u8, start: u32, stop: u32) -> (h: Self)
        ensures
            h.weekday == weekday,
            h.start == start,
            h.stop == stop,
    {
        Hours { weekday, start, stop }
    }

    pub fn weekday(&self) -> (w: u8)
        ensures
            w == self.weekday,
    {
        self.weekday
    }

    pub fn start(&self) -> (s: u32)
        ensures
            s == self.start,
    {
        self.start
    }

    pub fn stop(&self) -> (s: u32)
        ensures
            s == self.stop,
    {
        self.stop
    }
}

impl Default for Hours {
    /// The window used for a weekday that the configuration does not list:
    /// the whole day.
    fn default() -> (h: Self)
        ensures
            h.weekday == 0,
            h.start == 0,
            h.stop == crate::calendar::SECONDS_PER_DAY,
    {
        Hours { weekday: 0, start: 0, stop: crate::calendar::SECONDS_PER_DAY }
    }
}

pub struct DateTimeConfig {
    pub disabled_days: Vec<Date>,
    pub start_hours: Vec<Hours>,
}

impl DateTimeConfig {
    pub fn new(disabled_days: Vec<Date>, start_hours: Vec<Hours>) -> (c: Self)
        ensures
            c.disabled_days == disabled_days,
            c.start_hours == start_hours,
    {
        DateTimeConfig { disabled_days, start_hours }
    }

    pub fn dates(&self) -> (r: &Vec<Date>)
        ensures
            r == self.disabled_days,
    {
        &self.disabled_days
    }

    pub fn start_hours(&self) -> (r: &Vec<Hours>)
        ensures
            r == self.start_hours,
    {
        &self.start_hours
    }
}

impl Default for DateTimeConfig {
    /// No excluded days and no per-weekday windows: every day is monitored in
    /// full.
    fn default() -> (c: Self)
        ensures
            c.disabled_days@ == Seq::<Date>::empty(),
            c.start_hours@ == Seq::<Hours>::empty(),
    {
        DateTimeConfig { disabled_days: Vec::new(), start_hours: Vec::new() }
    }
}

} // verus!
