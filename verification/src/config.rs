//! The parsed configuration as plain values. Reading and deserializing the
//! configuration file is the surrounding process's job; this type holds what
//! came out of it, with the optional sections resolved to their defaults on
//! request.

pub mod alert_config;
pub mod date_config;
pub mod event_config;
pub mod recorder_config;

use alert_config::AlertConfig;
use date_config::DateTimeConfig;
use event_config::EventConfig;
use recorder_config::RecorderConfig;

use vstd::prelude::*;

verus! {

pub struct Config {
    pub share: String,
    pub recorder: RecorderConfig,
    pub event_handler: Option<EventConfig>,
    pub date_and_time: Option<DateTimeConfig>,
    pub alerts: Option<AlertConfig>,
}

impl Config {
    pub fn new(
        share: String,
        recorder: RecorderConfig,
        event_handler: Option<EventConfig>,
        date_and_time: Option<DateTimeConfig>,
        alerts: Option<AlertConfig>,
    ) -> (c: Self)
        ensures
            c.share == share,
            c.recorder == recorder,
            c.event_handler == event_handler,
            c.date_and_time == date_and_time,
            c.alerts == alerts,
    {
        Config { share, recorder, event_handler, date_and_time, alerts }
    }

    /// The directory the data file lives in, already resolved by the caller.
    pub fn share(&self) -> (r: &String)
        ensures
            r == self.share,
    {
        &self.share
    }

    pub fn recorder_config(&self) -> (r: &RecorderConfig)
        ensures
            r == self.recorder,
    {
        &self.recorder
    }

    pub fn event_config(&self) -> (r: EventConfig)
        ensures
            self.event_handler is Some ==> Some(r) == self.event_handler,
            self.event_handler is None ==> r.delay == 500,
    {
        match &self.event_handler {
            Some(e) => EventConfig::new(e.delay),
            None => EventConfig::default(),
        }
    }

    pub fn date_config(&self) -> (r: &Option<DateTimeConfig>)
        ensures
            r == self.date_and_time,
    {
        &self.date_and_time
    }

    pub fn alert_config(&self) -> (r: &Option<AlertConfig>)
        ensures
            r == self.alerts,
    {
        &self.alerts
    }

    /// Takes the configuration apart, resolving absent sections to defaults.
    pub fn break_up(self) -> (r: (String, RecorderConfig, EventConfig, DateTimeConfig, AlertConfig))
        ensures
            r.0 == self.share,
            r.1 == self.recorder,
            self.event_handler is Some ==> Some(r.2) == self.event_handler,
            self.event_handler is None ==> r.2.delay == 500,
            self.date_and_time is Some ==> Some(r.3) == self.date_and_time,
            self.date_and_time is None ==> r.3.disabled_days@.len() == 0
                && r.3.start_hours@.len() == 0,
            self.alerts is Some ==> Some(r.4) == self.alerts,
            self.alerts is None ==> r.4.delay == 500 && r.4.productive_time == 5
                && r.4.unproductive_time == 20,
    {
        let event = match self.event_handler {
            Some(e) => e,
            None => EventConfig::default(),
        };
        let date = match self.date_and_time {
            Some(d) => d,
            None => DateTimeConfig::default(),
        };
        let alert = match self.alerts {
            Some(a) => a,
            None => AlertConfig::default(),
        };
        (self.share, self.recorder, event, date, alert)
    }
}

} // verus!
