use septem::alert::{AlertError, Alerter};
use septem::config::alert_config::AlertConfig;

fn alerter(delay_ms: u64, productive_min: u64, unproductive_min: u64) -> Alerter {
    let config = AlertConfig::new(
        delay_ms,
        productive_min,
        unproductive_min,
        "get back to work".to_string(),
    );
    Alerter::new(config).expect("message is not empty")
}

#[test]
fn empty_message_is_rejected() {
    let config = AlertConfig::new(500, 5, 20, String::new());
    assert_eq!(Alerter::new(config).err(), Some(AlertError::EmptyMessageError));
}

#[test]
fn unproductive_threshold_fires_exactly_once_and_resets() {
    // 5-second ticks; thresholds 5 and 20 minutes. 240 unproductive ticks
    // are 20 minutes: exactly one alert, at the last tick, and both streaks
    // return to zero.
    let mut a = alerter(5000, 5, 20);
    let mut alerts = 0;
    for tick in 1..=240u32 {
        let fired = a.tick(true, false);
        if fired {
            alerts += 1;
            assert_eq!(tick, 240, "the alert comes only when 20 minutes accumulate");
        }
    }
    assert_eq!(alerts, 1);
    assert_eq!(a.productive, 0);
    assert_eq!(a.unproductive, 0);
}

#[test]
fn fewer_unproductive_ticks_never_fire() {
    let mut a = alerter(5000, 5, 20);
    for _ in 0..239 {
        assert!(!a.tick(true, false));
    }
    assert_eq!(a.unproductive, 239 * 5000);
}

#[test]
fn productive_threshold_quietly_resets_both_streaks() {
    let mut a = alerter(5000, 5, 20);
    for _ in 0..100 {
        assert!(!a.tick(true, false));
    }
    assert_eq!(a.unproductive, 100 * 5000);
    // 5 minutes of productive ticks: 60 ticks of 5 seconds.
    for _ in 0..59 {
        assert!(!a.tick(true, true));
    }
    assert_eq!(a.productive, 59 * 5000);
    assert!(!a.tick(true, true), "using up the productive session is not an alert");
    assert_eq!(a.productive, 0);
    assert_eq!(a.unproductive, 0, "the unproductive streak was forgiven");
}

#[test]
fn ticks_with_alerting_off_move_nothing() {
    let mut a = alerter(5000, 5, 20);
    for _ in 0..1000 {
        assert!(!a.tick(false, false));
    }
    assert_eq!(a.productive, 0);
    assert_eq!(a.unproductive, 0);
}

#[test]
fn alert_config_defaults_match_the_documented_values() {
    let c = AlertConfig::default();
    assert_eq!(c.delay(), 500);
    assert_eq!(c.productive_time(), 5);
    assert_eq!(c.unproductive_time(), 20);
    assert!(!c.message().is_empty());
}
