use septem::config::recorder_config::RecorderConfig;
use septem::recorder::{
    replay_events, Accumulator, EventOutcome, ProcessRecord, Recorder, RecorderError,
    ResolvedFocus,
};

fn conf(write_delay: u64, productive: &[&str]) -> RecorderConfig {
    RecorderConfig::new(500, write_delay, productive.iter().map(|s| s.to_string()).collect())
}

#[test]
fn accumulator_adds_and_merges() {
    let mut acc = Accumulator::new();
    acc.add_data("firefox".to_string(), 10, false);
    acc.add_data("vim".to_string(), 3, true);
    acc.add_data("firefox".to_string(), 5, true);
    assert_eq!(acc.len(), 2);
    assert_eq!(acc.get(&"firefox".to_string()), Some((15, true)));
    assert_eq!(acc.get(&"vim".to_string()), Some((3, true)));
    assert_eq!(acc.get(&"emacs".to_string()), None);
}

#[test]
fn accumulator_saturates_at_the_top() {
    let mut acc = Accumulator::new();
    acc.add_data("x".to_string(), u64::MAX - 1, false);
    acc.add_data("x".to_string(), 10, false);
    assert_eq!(acc.get(&"x".to_string()), Some((u64::MAX, false)));
}

#[test]
fn handle_event_credits_the_previously_focused_process() {
    let mut rec = Recorder::new(String::new(), conf(1000, &["vim"]), Accumulator::new());

    // First event: nothing was focused before, so nothing is credited.
    let out = rec.handle_event(ResolvedFocus::Found("vim".to_string()), 7).unwrap();
    assert!(out.publish_productive);
    assert!(!out.write_now);
    assert_eq!(rec.proc_times.len(), 0);

    // Second event: the 4 seconds since go to vim.
    let out = rec.handle_event(ResolvedFocus::Found("firefox".to_string()), 4).unwrap();
    assert!(!out.publish_productive);
    assert_eq!(rec.proc_times.get(&"vim".to_string()), Some((4, true)));

    // No window: firefox gets the elapsed time, nothing is published as
    // productive.
    let out = rec.handle_event(ResolvedFocus::NoWindow, 2).unwrap();
    assert!(!out.publish_productive);
    assert_eq!(rec.proc_times.get(&"firefox".to_string()), Some((2, false)));

    // After a gap with no window, the next event credits nobody.
    let out = rec.handle_event(ResolvedFocus::Found("vim".to_string()), 9).unwrap();
    assert!(out.publish_productive);
    assert_eq!(rec.proc_times.get(&"vim".to_string()), Some((4, true)));
    assert_eq!(rec.proc_times.get(&"firefox".to_string()), Some((2, false)));
}

#[test]
fn handle_event_treats_exited_process_as_no_window() {
    let mut rec = Recorder::new(String::new(), conf(1000, &[]), Accumulator::new());
    rec.handle_event(ResolvedFocus::Found("a".to_string()), 0).unwrap();
    let out = rec.handle_event(ResolvedFocus::Exited, 5).unwrap();
    assert!(!out.publish_productive);
    assert_eq!(rec.proc_times.get(&"a".to_string()), Some((5, false)));
    assert!(rec.curr_proc.is_none());
}

#[test]
fn handle_event_fails_fatally_on_lookup_failure() {
    let mut rec = Recorder::new(String::new(), conf(1000, &[]), Accumulator::new());
    rec.handle_event(ResolvedFocus::Found("a".to_string()), 1).unwrap();
    let err = rec.handle_event(ResolvedFocus::Failed("permission denied".to_string()), 5);
    assert_eq!(err, Err(RecorderError::GetProcessError("permission denied".to_string())));
    // The failure changed nothing.
    assert_eq!(rec.proc_times.len(), 0);
    assert_eq!(rec.curr_proc, Some("a".to_string()));
}

#[test]
fn write_cadence_counts_wall_clock_between_flushes() {
    let mut rec = Recorder::new(String::new(), conf(10, &[]), Accumulator::new());
    rec.handle_event(ResolvedFocus::Found("a".to_string()), 4).unwrap();
    let out = rec.handle_event(ResolvedFocus::Found("b".to_string()), 4).unwrap();
    assert!(!out.write_now);
    let out = rec.handle_event(ResolvedFocus::Found("a".to_string()), 4).unwrap();
    assert!(out.write_now, "12 seconds have passed, past the 10-second delay");
    let out = rec.handle_event(ResolvedFocus::Found("b".to_string()), 4).unwrap();
    assert!(!out.write_now, "the cadence clock restarted after the flush");
}

#[test]
fn replay_totals_are_the_sums_of_previous_focus_intervals() {
    let events: Vec<(Option<String>, u64)> = vec![
        (Some("a".to_string()), 5),
        (Some("b".to_string()), 3),
        (None, 2),
        (Some("a".to_string()), 4),
    ];
    let rec = replay_events(conf(1000, &["a"]), &events);
    // "a" was focused before the second event (3 s); "b" before the third
    // (2 s); nothing before the fourth.
    assert_eq!(rec.proc_times.get(&"a".to_string()), Some((3, true)));
    assert_eq!(rec.proc_times.get(&"b".to_string()), Some((2, false)));
}

#[test]
fn replay_is_deterministic_across_independent_recorders() {
    let events: Vec<(Option<String>, u64)> = vec![
        (Some("x".to_string()), 1),
        (Some("y".to_string()), 10),
        (Some("x".to_string()), 20),
        (None, 7),
        (Some("y".to_string()), 30),
    ];
    let one = replay_events(conf(1000, &["x", "y"]), &events);
    let two = replay_events(conf(1000, &["x", "y"]), &events);
    assert_eq!(one.proc_times.records(), two.proc_times.records());
}

#[test]
fn from_records_sums_duplicate_names() {
    let rows = vec![
        ProcessRecord { name: "a".to_string(), focused_seconds: 5, is_productive: false },
        ProcessRecord { name: "b".to_string(), focused_seconds: 1, is_productive: true },
        ProcessRecord { name: "a".to_string(), focused_seconds: 7, is_productive: true },
    ];
    let acc = Accumulator::from_records(rows);
    assert_eq!(acc.len(), 2);
    assert_eq!(acc.get(&"a".to_string()), Some((12, true)));
    assert_eq!(acc.get(&"b".to_string()), Some((1, true)));
}

#[test]
fn event_outcome_fields_are_plain() {
    let out = EventOutcome { publish_productive: true, write_now: false };
    assert!(out.publish_productive);
    assert!(!out.write_now);
}
