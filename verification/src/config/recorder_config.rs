//! Settings of the recorder task: how often accumulated data is flushed and
//! which process names count as productive.

use vstd::prelude::*;

verus! {

pub struct RecorderConfig {
    pub notify_delay: u64,
    pub write_delay: u64,
    pub productive: Vec<String>,
}

impl RecorderConfig {
    pub fn new(notify_delay: u64, write_delay: u64, productive: Vec<String>) -> (c: Self)
        ensures
            c.notify_delay == notify_delay,
            c.write_delay == write_delay,
            c.productive == productive,
    {
        RecorderConfig { notify_delay, write_delay, productive }
    }

    pub fn productive(&self) -> (r: &Vec<String>)
        ensures
            r == self.productive,
    {
        &self.productive
    }

    pub fn notify_delay(&self) -> (r: u64)
        ensures
            r == self.notify_delay,
    {
        self.notify_delay
    }

    pub fn write_delay(&self) -> (r: u64)
        ensures
            r == self.write_delay,
    {
        self.write_delay
    }
}

} // verus!
