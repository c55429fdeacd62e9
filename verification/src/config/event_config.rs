//! Settings of the window-watcher task.

use vstd::prelude::*;

verus! {

pub struct EventConfig {
    pub delay: u64,
}

impl EventConfig {
    pub fn new(delay: u64) -> (c: Self)
        ensures
            c.delay == delay,
    {
        EventConfig { delay }
    }

    pub fn delay(&self) -> (r: u64)
        ensures
            r == self.delay,
    {
        self.delay
    }
}

impl Default for EventConfig {
    fn default() -> (c: Self)
        ensures
            c.delay == 500,
    {
        EventConfig { delay: 500 }
    }
}

} // verus!
