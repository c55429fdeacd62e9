//! Core of a background activity tracker: a schedule engine deciding when
//! monitoring is on, a recorder that turns focus-change events into per-process
//! focused-time records, an alerter that watches productivity streaks, and the
//! supervisor state machine that starts, stops and restarts the long-running
//! tasks. All decision logic lives here and is verified; the surrounding
//! process (X11 events, signals, file handling, timers) feeds plain values in
//! and carries actions out.

pub mod alert;
pub mod calendar;
pub mod client;
pub mod config;
pub mod data_file;
pub mod date_checker;
pub mod recorder;
pub mod server;
