use septem::client::{Running, WaitTimeout};
use septem::config::alert_config::AlertConfig;
use septem::config::date_config::{DateTimeConfig, Hours};
use septem::config::event_config::EventConfig;
use septem::config::recorder_config::RecorderConfig;
use septem::config::Config;

#[test]
fn recorder_config_getters() {
    let c = RecorderConfig::new(250, 30, vec!["vim".to_string()]);
    assert_eq!(c.notify_delay(), 250);
    assert_eq!(c.write_delay(), 30);
    assert_eq!(c.productive(), &vec!["vim".to_string()]);
}

#[test]
fn event_config_getter_and_default() {
    assert_eq!(EventConfig::new(100).delay(), 100);
    assert_eq!(EventConfig::default().delay(), 500);
}

#[test]
fn hours_getters_and_default_cover_the_whole_day() {
    let h = Hours::new(3, 100, 200);
    assert_eq!(h.weekday(), 3);
    assert_eq!(h.start(), 100);
    assert_eq!(h.stop(), 200);
    let d = Hours::default();
    assert_eq!(d.start(), 0);
    assert_eq!(d.stop(), 86400);
}

#[test]
fn config_resolves_absent_sections_to_defaults() {
    let config = Config::new(
        "/tmp/share".to_string(),
        RecorderConfig::new(250, 30, vec![]),
        None,
        None,
        None,
    );
    assert_eq!(config.share(), "/tmp/share");
    assert_eq!(config.recorder_config().write_delay(), 30);
    assert_eq!(config.event_config().delay(), 500);
    assert!(config.date_config().is_none());
    assert!(config.alert_config().is_none());
    let (share, rec, event, date, alert) = config.break_up();
    assert_eq!(share, "/tmp/share");
    assert_eq!(rec.notify_delay(), 250);
    assert_eq!(event.delay(), 500);
    assert!(date.dates().is_empty());
    assert!(date.start_hours().is_empty());
    assert_eq!(alert.delay(), 500);
    assert_eq!(alert.productive_time(), 5);
    assert_eq!(alert.unproductive_time(), 20);
}

#[test]
fn config_keeps_given_sections() {
    let config = Config::new(
        "s".to_string(),
        RecorderConfig::new(1, 2, vec![]),
        Some(EventConfig::new(9)),
        Some(DateTimeConfig::new(vec![], vec![Hours::new(0, 1, 2)])),
        Some(AlertConfig::new(3, 4, 5, "m".to_string())),
    );
    let (_, _, event, date, alert) = config.break_up();
    assert_eq!(event.delay(), 9);
    assert_eq!(date.start_hours().len(), 1);
    assert_eq!(alert.delay(), 3);
}

#[test]
fn running_flag_stores_and_loads() {
    let r = Running::new(true);
    assert!(r.load());
    let other = r.clone();
    other.store(false);
    assert!(!r.load(), "clones share the one flag cell");
    r.store(true);
    assert!(other.load());
}

#[test]
fn wait_timeout_outcomes_are_distinct() {
    assert_ne!(WaitTimeout::Notified, WaitTimeout::TimedOut);
}
