use septem::calendar::{days_in_month, is_leap_year, weekday_of, Moment, SECONDS_PER_DAY};
use septem::config::date_config::{Date, DateTimeConfig, Hours};
use septem::date_checker::{
    alerts_active, next_time, next_time_at, sanity_check, should_run, weekdays_hours, DateChecker,
    DateError, StartStopTimes,
};

fn moment(year: i64, month: u8, day: u8, hour: u8, minute: u8, second: u8) -> Moment {
    Moment { year, month, day, hour, minute, second }
}

#[test]
fn weekday_of_known_dates() {
    // 2026-10-12 is a Monday, 2024-02-29 a Thursday, 2000-01-01 a Saturday.
    assert_eq!(weekday_of(2026, 10, 12), 0);
    assert_eq!(weekday_of(2024, 2, 29), 3);
    assert_eq!(weekday_of(2000, 1, 1), 5);
    // 2026-03-16 is the third Monday of March 2026.
    assert_eq!(weekday_of(2026, 3, 16), 0);
    assert_eq!(weekday_of(2026, 3, 9), 0);
    assert_eq!(weekday_of(2026, 3, 2), 0);
    assert_eq!(weekday_of(2026, 3, 1), 6);
}

#[test]
fn leap_years_and_month_lengths() {
    assert!(is_leap_year(2024));
    assert!(!is_leap_year(2023));
    assert!(!is_leap_year(1900));
    assert!(is_leap_year(2000));
    assert_eq!(days_in_month(2024, 2), 29);
    assert_eq!(days_in_month(2023, 2), 28);
    assert_eq!(days_in_month(2026, 4), 30);
    assert_eq!(days_in_month(2026, 12), 31);
}

#[test]
fn sanity_check_accepts_valid_config() {
    let config = DateTimeConfig::new(
        vec![
            Date::MonthWeekDay { month: 3, week: 3, day: 0 },
            Date::MonthDay { month: 12, day: 25 },
        ],
        vec![Hours::new(0, 9 * 3600, 17 * 3600), Hours::new(4, 9 * 3600, 12 * 3600)],
    );
    assert!(sanity_check(&config, 2026).is_ok());
}

#[test]
fn sanity_check_rejects_bad_month_day() {
    let config = DateTimeConfig::new(vec![Date::MonthDay { month: 2, day: 30 }], vec![]);
    assert_eq!(sanity_check(&config, 2026), Err(DateError::DayOfMonthError(2, 30)));
}

#[test]
fn sanity_check_rejects_missing_weekday_occurrence() {
    // March 2026 has only five Mondays at most; week 6 never exists.
    let config =
        DateTimeConfig::new(vec![Date::MonthWeekDay { month: 3, week: 6, day: 0 }], vec![]);
    assert_eq!(sanity_check(&config, 2026), Err(DateError::WeekdayOfMonthError(3, 0, 6)));
}

#[test]
fn sanity_check_rejects_week_zero() {
    let config =
        DateTimeConfig::new(vec![Date::MonthWeekDay { month: 3, week: 0, day: 0 }], vec![]);
    assert_eq!(sanity_check(&config, 2026), Err(DateError::WeekdayOfMonthError(3, 0, 0)));
}

#[test]
fn sanity_check_rejects_flipped_window() {
    let config = DateTimeConfig::new(vec![], vec![Hours::new(2, 17 * 3600, 9 * 3600)]);
    assert_eq!(sanity_check(&config, 2026), Err(DateError::FlipFlopTimeError(2)));
}

#[test]
fn sanity_check_rejects_repeated_weekday() {
    let config = DateTimeConfig::new(
        vec![],
        vec![Hours::new(1, 0, 3600), Hours::new(1, 7200, 10800)],
    );
    assert_eq!(sanity_check(&config, 2026), Err(DateError::RepeatedWeekdayError(1)));
}

#[test]
fn sanity_check_rejects_hours_past_midnight() {
    let config = DateTimeConfig::new(vec![], vec![Hours::new(1, 0, SECONDS_PER_DAY + 1)]);
    assert_eq!(sanity_check(&config, 2026), Err(DateError::HoursTooHighError));
}

#[test]
fn sanity_check_rejects_weekday_out_of_range() {
    let config = DateTimeConfig::new(vec![], vec![Hours::new(7, 0, 3600)]);
    assert_eq!(sanity_check(&config, 2026), Err(DateError::WeekdayOutOfRangeError(7)));
}

#[test]
fn weekdays_hours_picks_listed_window_or_whole_day() {
    let config = DateTimeConfig::new(vec![], vec![Hours::new(2, 1000, 2000)]);
    assert_eq!(weekdays_hours(2, &config), (1000, 2000));
    assert_eq!(weekdays_hours(3, &config), (0, SECONDS_PER_DAY));
}

#[test]
fn next_time_before_window_starts_monitoring_at_start() {
    // 2026-10-12 is a Monday (weekday 0); window 09:00..17:00.
    let config = DateTimeConfig::new(vec![], vec![Hours::new(0, 9 * 3600, 17 * 3600)]);
    let now = moment(2026, 10, 12, 8, 0, 0);
    assert_eq!(next_time_at(&config, &now), StartStopTimes::StartOfMonitoring(3600));
}

#[test]
fn next_time_inside_window_ends_monitoring_at_stop() {
    let config = DateTimeConfig::new(vec![], vec![Hours::new(0, 9 * 3600, 17 * 3600)]);
    let now = moment(2026, 10, 12, 16, 59, 30);
    assert_eq!(next_time_at(&config, &now), StartStopTimes::EndOfMonitoring(30));
}

#[test]
fn next_time_whole_day_window_runs_to_midnight() {
    let config = DateTimeConfig::new(vec![], vec![]);
    let now = moment(2026, 10, 12, 23, 59, 59);
    assert_eq!(next_time_at(&config, &now), StartStopTimes::EndOfDay(1, true));
}

#[test]
fn next_time_after_window_rests_until_midnight() {
    let config = DateTimeConfig::new(vec![], vec![Hours::new(0, 9 * 3600, 17 * 3600)]);
    let now = moment(2026, 10, 12, 18, 0, 0);
    assert_eq!(next_time_at(&config, &now), StartStopTimes::EndOfDay(6 * 3600, false));
}

#[test]
fn next_time_boundary_advance_flips_state() {
    // Re-evaluating at the moment the returned duration points to shows the
    // transition happened exactly there, not before.
    let config = DateTimeConfig::new(vec![], vec![Hours::new(0, 9 * 3600, 17 * 3600)]);
    let before = moment(2026, 10, 12, 8, 59, 59);
    match next_time_at(&config, &before) {
        StartStopTimes::StartOfMonitoring(d) => {
            assert_eq!(d, 1);
            let at_start = moment(2026, 10, 12, 9, 0, 0);
            match next_time_at(&config, &at_start) {
                StartStopTimes::EndOfMonitoring(d2) => assert_eq!(d2, 8 * 3600),
                other => panic!("monitoring should be active at the boundary: {:?}", other),
            }
        },
        other => panic!("expected the start of monitoring: {:?}", other),
    }
}

#[test]
fn third_monday_of_march_is_excluded_whatever_the_windows_say() {
    // 2026-03-16 is the third Monday of March 2026.
    let config = DateTimeConfig::new(
        vec![Date::MonthWeekDay { month: 3, week: 3, day: 0 }],
        vec![Hours::new(0, 0, SECONDS_PER_DAY)],
    );
    let now = moment(2026, 3, 16, 12, 0, 0);
    assert!(!should_run(&now, &config));
    assert_eq!(next_time_at(&config, &now), StartStopTimes::EndOfDay(12 * 3600, false));
    // The Monday a week earlier is not excluded.
    let other_monday = moment(2026, 3, 9, 12, 0, 0);
    assert!(should_run(&other_monday, &config));
    assert_eq!(next_time_at(&config, &other_monday), StartStopTimes::EndOfDay(12 * 3600, true));
}

#[test]
fn month_day_rule_excludes_exactly_its_date() {
    let config = DateTimeConfig::new(vec![Date::MonthDay { month: 12, day: 25 }], vec![]);
    assert!(!should_run(&moment(2026, 12, 25, 0, 0, 0), &config));
    assert!(should_run(&moment(2026, 12, 24, 0, 0, 0), &config));
    assert!(should_run(&moment(2026, 11, 25, 0, 0, 0), &config));
}

#[test]
fn alerts_active_follows_the_decision() {
    assert!(!alerts_active(StartStopTimes::StartOfMonitoring(5)));
    assert!(alerts_active(StartStopTimes::EndOfMonitoring(5)));
    assert!(alerts_active(StartStopTimes::EndOfDay(5, true)));
    assert!(!alerts_active(StartStopTimes::EndOfDay(5, false)));
}

#[test]
fn date_checker_validates_at_construction() {
    let good = DateTimeConfig::new(vec![], vec![Hours::new(0, 0, 3600)]);
    let checker = DateChecker::new(good).expect("valid config");
    match checker.next_time() {
        StartStopTimes::EndOfDay(d, _) => assert!(d >= 1 && d <= u64::from(SECONDS_PER_DAY)),
        StartStopTimes::StartOfMonitoring(d) => assert!(d <= u64::from(SECONDS_PER_DAY)),
        StartStopTimes::EndOfMonitoring(d) => assert!(d <= u64::from(SECONDS_PER_DAY)),
    }
    let bad = DateTimeConfig::new(vec![], vec![Hours::new(9, 0, 3600)]);
    assert!(DateChecker::new(bad).is_err());
}

#[test]
fn next_time_on_wall_clock_default_config_runs_all_day() {
    let config = DateTimeConfig::new(vec![], vec![]);
    match next_time(&config) {
        StartStopTimes::EndOfDay(d, is_on) => {
            assert!(is_on);
            assert!(d >= 1 && d <= u64::from(SECONDS_PER_DAY));
        },
        other => panic!("a day without windows is monitored in full: {:?}", other),
    }
}

#[test]
fn date_getters_expose_rule_parts() {
    let mwd = Date::MonthWeekDay { month: 3, week: 3, day: 0 };
    assert_eq!(mwd.month(), 3);
    assert_eq!(mwd.week(), Some(3));
    assert_eq!(mwd.day(), 0);
    let md = Date::MonthDay { month: 12, day: 25 };
    assert_eq!(md.month(), 12);
    assert_eq!(md.week(), None);
    assert_eq!(md.day(), 25);
}
