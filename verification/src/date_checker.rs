//! The schedule engine: pure functions over a `DateTimeConfig` and a wall
//! clock reading that decide whether monitoring is active right now and when
//! the next transition (start of monitoring, end of monitoring, end of day)
//! comes.

use crate::calendar::{
    days_in_month, local_now, spec_days_in_month, spec_weekday, weekday_of, Moment, MAX_YEAR,
    MIN_YEAR, SECONDS_PER_DAY,
};
use crate::config::date_config::{Date, DateTimeConfig, Hours};

use vstd::prelude::*;

verus! {

#[derive(Clone, Copy, Debug, PartialEq, Eq, Structural)]
pub enum DateError {
    /// A month/day exclusion rule names a day the month does not have
    /// (carries the month and the day of the rule).
    DayOfMonthError(u8, u8),
    /// A month/week/weekday exclusion rule names an occurrence the month does
    /// not have (carries the month, the weekday and the week of the rule).
    WeekdayOfMonthError(u8, u8, u8),
    /// A weekday's window has its start time at or after its stop time
    /// (carries the weekday).
    FlipFlopTimeError(u8),
    /// A weekday appears more than once in the window list (carries the
    /// weekday).
    RepeatedWeekdayError(u8),
    /// A window reaches past the end of the day.
    HoursTooHighError,
    /// A window names a weekday number above six (carries that number).
    WeekdayOutOfRangeError(u8),
}

/// The next schedule transition: how many seconds away it is and what it is.
/// `EndOfDay` carries whether monitoring stays active until midnight.
#[derive(Clone, Copy, Debug, PartialEq, Eq, Structural)]
pub enum StartStopTimes {
    EndOfDay(u64, bool),
    StartOfMonitoring(u64),
    EndOfMonitoring(u64),
}

/// Day of the month of the first occurrence of weekday `wd` in the month,
/// 0 = Monday .. 6 = Sunday.
pub open spec fn spec_first_weekday_occurrence(year: int, month: int, wd: int) -> int {
    1 + (wd - spec_weekday(year, month, 1)) % 7
}

/// Whether one calendar-exclusion rule names a date that exists in `year`.
pub open spec fn spec_date_rule_ok(d: Date, year: int) -> bool {
    match d {
        Date::MonthWeekDay { month, week, day } => {
            &&& 1 <= month <= 12
            &&& day <= 6
            &&& 1 <= week
            &&& spec_first_weekday_occurrence(year, month as int, day as int) + 7 * (week - 1)
                <= spec_days_in_month(year, month as int)
        },
        Date::MonthDay { month, day } => {
            &&& 1 <= month <= 12
            &&& 1 <= day <= spec_days_in_month(year, month as int)
        },
    }
}

/// Whether one weekday window is well formed on its own.
pub open spec fn spec_hours_ok(h: Hours) -> bool {
    &&& h.weekday <= 6
    &&& h.start < h.stop
    &&& h.stop <= SECONDS_PER_DAY
}

/// Whether no weekday appears twice in the window list.
pub open spec fn spec_no_repeated_weekday(s: Seq<Hours>) -> bool {
    forall|i: int, j: int|
        0 <= i < j < s.len() ==> #[trigger] s[i].weekday != #[trigger] s[j].weekday
}

/// Whether the whole schedule configuration is valid for `year`.
pub open spec fn spec_config_valid(c: &DateTimeConfig, year: int) -> bool {
    &&& forall|i: int|
        0 <= i < c.disabled_days@.len() ==> spec_date_rule_ok(#[trigger] c.disabled_days@[i], year)
    &&& forall|i: int| 0 <= i < c.start_hours@.len() ==> spec_hours_ok(#[trigger] c.start_hours@[i])
    &&& spec_no_repeated_weekday(c.start_hours@)
}

/// Checks that every exclusion rule names a date that exists in `year` and
/// that the weekday windows are well formed, reporting the first violation in
/// scan order.
pub fn sanity_check(config: &DateTimeConfig, year: i64) -> (r: Result<(), DateError>)
    requires
        MIN_YEAR <= year <= MAX_YEAR,
    ensures
        r is Ok <==> spec_config_valid(config, year as int),
        forall|m: u8, d: u8|
            r == Err::<(), DateError>(DateError::DayOfMonthError(m, d)) ==> exists|i: int|
                0 <= i < config.disabled_days@.len() && #[trigger] config.disabled_days@[i]
                    == (Date::MonthDay { month: m, day: d }) && !spec_date_rule_ok(
                    config.disabled_days@[i],
                    year as int,
                ),
        forall|m: u8, wd: u8, wk: u8|
            r == Err::<(), DateError>(DateError::WeekdayOfMonthError(m, wd, wk)) ==> exists|i: int|
                0 <= i < config.disabled_days@.len() && #[trigger] config.disabled_days@[i]
                    == (Date::MonthWeekDay { month: m, week: wk, day: wd }) && !spec_date_rule_ok(
                    config.disabled_days@[i],
                    year as int,
                ),
        forall|w: u8|
            r == Err::<(), DateError>(DateError::WeekdayOutOfRangeError(w)) ==> exists|i: int|
                0 <= i < config.start_hours@.len() && (#[trigger] config.start_hours@[i]).weekday
                    == w && w > 6,
        forall|w: u8|
            r == Err::<(), DateError>(DateError::RepeatedWeekdayError(w)) ==> exists|i: int, j: int|
                0 <= i < j < config.start_hours@.len() && (#[trigger] config.start_hours@[i]).weekday
                    == w && (#[trigger] config.start_hours@[j]).weekday == w,
        forall|w: u8|
            r == Err::<(), DateError>(DateError::FlipFlopTimeError(w)) ==> exists|i: int|
                0 <= i < config.start_hours@.len() && (#[trigger] config.start_hours@[i]).weekday
                    == w && config.start_hours@[i].start >= config.start_hours@[i].stop,
        r == Err::<(), DateError>(DateError::HoursTooHighError) ==> exists|i: int|
            0 <= i < config.start_hours@.len() && (#[trigger] config.start_hours@[i]).stop
                > SECONDS_PER_DAY,
{
    let dates = config.dates();
    let mut i: usize = 0;
    while i < dates.len()
        invariant
            MIN_YEAR <= year <= MAX_YEAR,
            i <= dates.len(),
            dates == config.disabled_days,
            forall|k: int| 0 <= k < i ==> spec_date_rule_ok(#[trigger] dates@[k], year as int),
        decreases dates.len() - i,
    {
        match dates[i] {
            Date::MonthWeekDay { month, week, day } => {
                if !date_rule_month_week_day_ok(year, month, week, day) {
                    return Err(DateError::WeekdayOfMonthError(month, day, week));
                }
            },
            Date::MonthDay { month, day } => {
                if !(1 <= month && month <= 12 && 1 <= day && day <= days_in_month(year, month)) {
                    return Err(DateError::DayOfMonthError(month, day));
                }
            },
        }
        i += 1;
    }

    let hours = config.start_hours();
    let mut i: usize = 0;
    while i < hours.len()
        invariant
            i <= hours.len(),
            hours == config.start_hours,
            forall|k: int| 0 <= k < i ==> spec_hours_ok(#[trigger] hours@[k]),
            forall|k: int, l: int|
                0 <= k < l < i ==> #[trigger] hours@[k].weekday != #[trigger] hours@[l].weekday,
        decreases hours.len() - i,
    {
        let h = hours[i];
        if h.weekday() > 6 {
            return Err(DateError::WeekdayOutOfRangeError(h.weekday()));
        }
        let mut j: usize = 0;
        while j < i
            invariant
                j <= i < hours.len(),
                hours == config.start_hours,
                h == hours@[i as int],
                forall|k: int| 0 <= k < j ==> #[trigger] hours@[k].weekday != h.weekday,
            decreases i - j,
        {
            if hours[j].weekday() == h.weekday() {
                return Err(DateError::RepeatedWeekdayError(h.weekday()));
            }
            j += 1;
        }
        if h.start() >= h.stop() {
            return Err(DateError::FlipFlopTimeError(h.weekday()));
        }
        if h.stop() > SECONDS_PER_DAY {
            return Err(DateError::HoursTooHighError);
        }
        i += 1;
    }
    Ok(())
}

/// Whether a month/week/weekday rule names an occurrence that exists in
/// `year`.
fn date_rule_month_week_day_ok(year: i64, month: u8, week: u8, day: u8) -> (r: bool)
    requires
        MIN_YEAR <= year <= MAX_YEAR,
    ensures
        r == spec_date_rule_ok(Date::MonthWeekDay { month, week, day }, year as int),
{
    if !(1 <= month && month <= 12 && day <= 6 && 1 <= week) {
        return false;
    }
    let first_wd = weekday_of(year, month, 1);
    let diff: i64 = day as i64 - first_wd as i64;
    let m7 = match diff.checked_rem_euclid(7) {
        Some(v) => v,
        None => 0,
    };
    let first_occ: i64 = 1 + m7;
    first_occ + 7 * (week as i64 - 1) <= days_in_month(year, month) as i64
}

/// The monitoring window of `wd` (0 = Monday .. 6 = Sunday): the first listed
/// window of that weekday, or the whole day if none is listed.
pub open spec fn spec_window(s: Seq<Hours>, wd: int) -> (u32, u32)
    decreases s.len(),
{
    if s.len() == 0 {
        (0u32, SECONDS_PER_DAY)
    } else if s[0].weekday == wd {
        (s[0].start, s[0].stop)
    } else {
        spec_window(s.drop_first(), wd)
    }
}

proof fn lemma_window_skip(s: Seq<Hours>, wd: int, i: int)
    requires
        0 <= i <= s.len(),
        forall|k: int| 0 <= k < i ==> (#[trigger] s[k]).weekday != wd,
    ensures
        spec_window(s, wd) == spec_window(s.skip(i), wd),
    decreases i,
{
    if i > 0 {
        assert(s[0].weekday != wd);
        assert(s.drop_first() =~= s.skip(1));
        lemma_window_skip(s.skip(1), wd, i - 1);
        assert(s.skip(1).skip(i - 1) =~= s.skip(i));
    } else {
        assert(s.skip(0) =~= s);
    }
}

/// Today's monitoring window: start and stop in seconds since midnight.
pub fn weekdays_hours(weekday: u8, config: &DateTimeConfig) -> (w: (u32, u32))
    ensures
        w == spec_window(config.start_hours@, weekday as int),
{
    let hours = config.start_hours();
    let mut i: usize = 0;
    while i < hours.len()
        invariant
            i <= hours.len(),
            hours == config.start_hours,
            forall|k: int| 0 <= k < i ==> (#[trigger] hours@[k]).weekday != weekday,
        decreases hours.len() - i,
    {
        let h = hours[i];
        if h.weekday() == weekday {
            proof {
                lemma_window_skip(hours@, weekday as int, i as int);
                assert(hours@.skip(i as int)[0] == hours@[i as int]);
            }
            return (h.start(), h.stop());
        }
        i += 1;
    }
    proof {
        lemma_window_skip(hours@, weekday as int, hours@.len() as int);
    }
    (0, SECONDS_PER_DAY)
}

/// Whether one exclusion rule names exactly the date of `now` (evaluated in
/// `now`'s own year).
pub open spec fn spec_rule_matches(d: Date, now: Moment) -> bool {
    match d {
        Date::MonthWeekDay { month, week, day } => {
            &&& month == now.month
            &&& day == spec_weekday(now.year as int, now.month as int, now.day as int)
            &&& week == (now.day - 1) / 7 + 1
        },
        Date::MonthDay { month, day } => month == now.month && day == now.day,
    }
}

/// Whether monitoring may run on `now`'s date: no exclusion rule matches it.
pub open spec fn spec_should_run(c: &DateTimeConfig, now: Moment) -> bool {
    forall|i: int| 0 <= i < c.disabled_days@.len() ==> !spec_rule_matches(
        #[trigger] c.disabled_days@[i],
        now,
    )
}

/// Whether any calendar-exclusion rule matches the date of `now`.
pub fn should_run(now: &Moment, config: &DateTimeConfig) -> (r: bool)
    requires
        now.wf(),
    ensures
        r == spec_should_run(config, *now),
{
    let wd_now = weekday_of(now.year, now.month, now.day);
    let week_now: u8 = (now.day - 1) / 7 + 1;
    let dates = config.dates();
    let mut i: usize = 0;
    while i < dates.len()
        invariant
            i <= dates.len(),
            dates == config.disabled_days,
            wd_now == spec_weekday(now.year as int, now.month as int, now.day as int),
            week_now == (now.day - 1) / 7 + 1,
            forall|k: int| 0 <= k < i ==> !spec_rule_matches(#[trigger] dates@[k], *now),
        decreases dates.len() - i,
    {
        match dates[i] {
            Date::MonthWeekDay { month, week, day } => {
                if month == now.month && day == wd_now && week == week_now {
                    return false;
                }
            },
            Date::MonthDay { month, day } => {
                if month == now.month && day == now.day {
                    return false;
                }
            },
        }
        i += 1;
    }
    true
}

/// Whether monitoring is active at `sod` seconds after midnight on `now`'s
/// date.
pub open spec fn spec_active_at(c: &DateTimeConfig, now: Moment, sod: int) -> bool {
    let w = spec_window(
        c.start_hours@,
        spec_weekday(now.year as int, now.month as int, now.day as int),
    );
    spec_should_run(c, now) && w.0 <= sod < w.1
}

/// Whether monitoring is active at the moment `now` itself.
pub open spec fn spec_monitoring_active(c: &DateTimeConfig, now: Moment) -> bool {
    spec_active_at(c, now, now.spec_seconds_of_day())
}

/// What `next_time` decides at the moment `now`: the algorithm of the
/// schedule engine, written out as a specification.
pub open spec fn spec_next_time(c: &DateTimeConfig, now: Moment) -> StartStopTimes {
    let sod = now.spec_seconds_of_day();
    let w = spec_window(
        c.start_hours@,
        spec_weekday(now.year as int, now.month as int, now.day as int),
    );
    if spec_should_run(c, now) && sod < w.0 {
        StartStopTimes::StartOfMonitoring((w.0 - sod) as u64)
    } else if spec_should_run(c, now) && sod < w.1 {
        if w.1 == SECONDS_PER_DAY {
            StartStopTimes::EndOfDay((SECONDS_PER_DAY - sod) as u64, true)
        } else {
            StartStopTimes::EndOfMonitoring((w.1 - sod) as u64)
        }
    } else {
        StartStopTimes::EndOfDay((SECONDS_PER_DAY - sod) as u64, false)
    }
}

/// The next schedule transition as seen from the moment `now`.
pub fn next_time_at(config: &DateTimeConfig, now: &Moment) -> (r: StartStopTimes)
    requires
        now.wf(),
    ensures
        r == spec_next_time(config, *now),
{
    let sod = now.seconds_of_day();
    let wd = weekday_of(now.year, now.month, now.day);
    let (start, stop) = weekdays_hours(wd, config);
    let run_today = should_run(now, config);

    if run_today {
        if sod < start {
            return StartStopTimes::StartOfMonitoring((start - sod) as u64);
        } else if sod < stop {
            if stop == SECONDS_PER_DAY {
                return StartStopTimes::EndOfDay((SECONDS_PER_DAY - sod) as u64, true);
            } else {
                return StartStopTimes::EndOfMonitoring((stop - sod) as u64);
            }
        }
    }
    StartStopTimes::EndOfDay((SECONDS_PER_DAY - sod) as u64, false)
}

/// The next schedule transition as seen from the wall clock now. The clock
/// reading is arbitrary; whatever moment came back, the result is the
/// engine's decision for it.
pub fn next_time(config: &DateTimeConfig) -> (r: StartStopTimes)
    ensures
        exists|m: Moment| m.wf() && r == spec_next_time(config, m),
{
    let now = local_now();
    next_time_at(config, &now)
}

/// Whether alerting should be on while waiting out the decision `t`: on
/// exactly when the decision was made inside an active monitoring window.
pub fn alerts_active(t: StartStopTimes) -> (r: bool)
    ensures
        r == match t {
            StartStopTimes::EndOfDay(_, is_on) => is_on,
            StartStopTimes::StartOfMonitoring(_) => false,
            StartStopTimes::EndOfMonitoring(_) => true,
        },
{
    match t {
        StartStopTimes::EndOfDay(_, is_on) => is_on,
        StartStopTimes::StartOfMonitoring(_) => false,
        StartStopTimes::EndOfMonitoring(_) => true,
    }
}

/// The decision made at `now` reports monitoring as active exactly when
/// monitoring is active at `now`.
pub proof fn lemma_decision_reflects_activity(c: &DateTimeConfig, now: Moment)
    requires
        now.wf(),
        forall|i: int| 0 <= i < c.start_hours@.len() ==> spec_hours_ok(#[trigger] c.start_hours@[i]),
    ensures
        match spec_next_time(c, now) {
            StartStopTimes::EndOfDay(_, is_on) => is_on == spec_monitoring_active(c, now),
            StartStopTimes::StartOfMonitoring(_) => !spec_monitoring_active(c, now),
            StartStopTimes::EndOfMonitoring(_) => spec_monitoring_active(c, now),
        },
{
    lemma_window_valid(c.start_hours@, spec_weekday(now.year as int, now.month as int, now.day as int));
}

/// The window looked up for any weekday is well formed whenever every listed
/// window is.
proof fn lemma_window_valid(s: Seq<Hours>, wd: int)
    requires
        forall|i: int| 0 <= i < s.len() ==> spec_hours_ok(#[trigger] s[i]),
    ensures
        spec_window(s, wd).0 < spec_window(s, wd).1,
        spec_window(s, wd).1 <= SECONDS_PER_DAY,
    decreases s.len(),
{
    if s.len() > 0 && s[0].weekday != wd {
        assert(forall|i: int|
            0 <= i < s.drop_first().len() ==> spec_hours_ok(#[trigger] s.drop_first()[i]));
        lemma_window_valid(s.drop_first(), wd);
    }
}

/// The duration of the decision made at `now` reaches exactly to the next
/// transition of the monitoring state: monitoring keeps its current state
/// strictly before the decision's deadline, and at a start- or
/// stop-of-monitoring deadline it flips. The deadline never lies past the end
/// of the day.
pub proof fn lemma_next_time_boundary(c: &DateTimeConfig, now: Moment)
    requires
        now.wf(),
        forall|i: int| 0 <= i < c.start_hours@.len() ==> spec_hours_ok(#[trigger] c.start_hours@[i]),
    ensures
        match spec_next_time(c, now) {
            StartStopTimes::StartOfMonitoring(t) => {
                &&& 0 < t <= SECONDS_PER_DAY
                &&& !spec_monitoring_active(c, now)
                &&& spec_active_at(c, now, now.spec_seconds_of_day() + t)
                &&& forall|s: int|
                    now.spec_seconds_of_day() <= s < now.spec_seconds_of_day() + t
                        ==> !spec_active_at(c, now, s)
            },
            StartStopTimes::EndOfMonitoring(t) => {
                &&& 0 < t <= SECONDS_PER_DAY
                &&& spec_monitoring_active(c, now)
                &&& !spec_active_at(c, now, now.spec_seconds_of_day() + t)
                &&& forall|s: int|
                    now.spec_seconds_of_day() <= s < now.spec_seconds_of_day() + t
                        ==> spec_active_at(c, now, s)
            },
            StartStopTimes::EndOfDay(t, is_on) => {
                &&& 0 < t <= SECONDS_PER_DAY
                &&& now.spec_seconds_of_day() + t == SECONDS_PER_DAY
                &&& is_on == spec_monitoring_active(c, now)
                &&& forall|s: int|
                    now.spec_seconds_of_day() <= s < SECONDS_PER_DAY ==> spec_active_at(c, now, s)
                        == is_on
            },
        },
{
    lemma_window_valid(c.start_hours@, spec_weekday(now.year as int, now.month as int, now.day as int));
}

/// On a date that some calendar-exclusion rule names, the engine always
/// decides `EndOfDay(_, false)`, whatever the weekday windows say.
pub proof fn lemma_excluded_day(c: &DateTimeConfig, now: Moment, i: int)
    requires
        now.wf(),
        0 <= i < c.disabled_days@.len(),
        spec_rule_matches(c.disabled_days@[i], now),
    ensures
        spec_next_time(c, now) == StartStopTimes::EndOfDay(
            (SECONDS_PER_DAY - now.spec_seconds_of_day()) as u64,
            false,
        ),
        !spec_monitoring_active(c, now),
{
    assert(!spec_should_run(c, now));
}

/// Validates a schedule configuration against the current year and carries it
/// once it passed.
pub struct DateChecker {
    pub config: DateTimeConfig,
}

impl DateChecker {
    /// Accepts the configuration only if it passes `sanity_check` for the
    /// year the wall clock reports. The year read is arbitrary, but whatever
    /// it was, an accepted configuration is valid for it and the window list
    /// is well formed outright; a rejection reports a violation of
    /// `sanity_check` for that year.
    pub fn new(config: DateTimeConfig) -> (r: Result<DateChecker, DateError>)
        ensures
            match r {
                Ok(dc) => {
                    &&& dc.config == config
                    &&& exists|y: int|
                        MIN_YEAR <= y <= MAX_YEAR && spec_config_valid(&config, y)
                    &&& forall|i: int|
                        0 <= i < config.start_hours@.len() ==> spec_hours_ok(
                            #[trigger] config.start_hours@[i],
                        )
                },
                Err(_) => exists|y: int|
                    MIN_YEAR <= y <= MAX_YEAR && !spec_config_valid(&config, y),
            },
    {
        let now = local_now();
        match sanity_check(&config, now.year) {
            Ok(()) => Ok(DateChecker { config }),
            Err(e) => Err(e),
        }
    }

    /// The next schedule transition as seen from the wall clock now.
    pub fn next_time(&self) -> (r: StartStopTimes)
        ensures
            exists|m: Moment| m.wf() && r == spec_next_time(&self.config, m),
    {
        next_time(&self.config)
    }
}

} // verus!
