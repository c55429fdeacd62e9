//! Settings of the alerter task: the tick delay in milliseconds, the two
//! streak thresholds in whole minutes, and the message shown when the
//! unproductive threshold is crossed.

use vstd::prelude::*;

verus! {

pub struct AlertConfig {
    pub delay: u64,
    pub productive_time: u64,
    pub unproductive_time: u64,
    pub message: String,
}

impl AlertConfig {
    pub fn new(delay: u64, productive_time: u64, unproductive_time: u64, message: String) -> (c:
        Self)
        ensures
            c.delay == delay,
            c.productive_time == productive_time,
            c.unproductive_time == unproductive_time,
            c.message == message,
    {
        AlertConfig { delay, productive_time, unproductive_time, message }
    }

    /// Tick delay in milliseconds.
    pub fn delay(&self) -> (r: u64)
        ensures
            r == self.delay,
    {
        self.delay
    }

    /// Threshold of the productive streak, in minutes.
    pub fn productive_time(&self) -> (r: u64)
        ensures
            r == self.productive_time,
    {
        self.productive_time
    }

    /// Threshold of the unproductive streak, in minutes.
    pub fn unproductive_time(&self) -> (r: u64)
        ensures
            r == self.unproductive_time,
    {
        self.unproductive_time
    }

    pub fn message(&self) -> (r: &String)
        ensures
            r == self.message,
    {
        &self.message
    }
}

impl Default for AlertConfig {
    fn default() -> (c: Self)
        ensures
            c.delay == 500,
            c.productive_time == 5,
            c.unproductive_time == 20,
            c.message@ == "You have been wasting time.\nPlease start being productive."@,
    {
        AlertConfig {
            delay: 500,
            productive_time: 5,
            unproductive_time: 20,
            message: "You have been wasting time.\nPlease start being productive.".to_owned(),
        }
    }
}

} // verus!
