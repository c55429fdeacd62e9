//! The alerter: on a fixed tick cadence it accumulates a productive and an
//! unproductive streak, in milliseconds. Crossing the productive threshold
//! quietly resets both streaks; crossing the unproductive threshold resets
//! both and fires the alert. The surrounding process drives the ticks and
//! shows the message; every counting decision is made here.

use crate::config::alert_config::AlertConfig;
use crate::recorder::sat_add64;

use vstd::prelude::*;

verus! {

#[derive(Clone, Copy, Debug, PartialEq, Eq, Structural)]
pub enum AlertError {
    /// The configured alert message is empty and would not show anything.
    EmptyMessageError,
}

/// A streak threshold given in minutes, as milliseconds; stops at the top of
/// the range instead of overflowing.
pub open spec fn spec_minutes_as_ms(minutes: u64) -> int {
    if minutes * 60000 > u64::MAX {
        u64::MAX as int
    } else {
        minutes * 60000
    }
}

fn minutes_as_ms(minutes: u64) -> (ms: u64)
    ensures
        ms == spec_minutes_as_ms(minutes),
{
    match minutes.checked_mul(60000) {
        Some(v) => v,
        None => u64::MAX,
    }
}

/// The alerter's whole state between two ticks: the two streaks, in
/// milliseconds.
pub struct Alerter {
    pub config: AlertConfig,
    pub productive: u64,
    pub unproductive: u64,
}

impl Alerter {
    /// A configuration is usable exactly when its message is not empty.
    pub fn sanity_check_conf(conf: &AlertConfig) -> (r: Result<(), AlertError>)
        ensures
            r is Ok <==> conf.message@.len() > 0,
            r is Err ==> r == Err::<(), AlertError>(AlertError::EmptyMessageError),
    {
        if conf.message.as_str().is_empty() {
            Err(AlertError::EmptyMessageError)
        } else {
            Ok(())
        }
    }

    /// Accepts the configuration and starts both streaks at zero; rejects a
    /// configuration whose message is empty.
    pub fn new(config: AlertConfig) -> (r: Result<Alerter, AlertError>)
        ensures
            r is Ok <==> config.message@.len() > 0,
            match r {
                Ok(a) => a.config == config && a.productive == 0 && a.unproductive == 0,
                Err(e) => e == AlertError::EmptyMessageError,
            },
    {
        match Alerter::sanity_check_conf(&config) {
            Ok(()) => Ok(Alerter { config, productive: 0, unproductive: 0 }),
            Err(e) => Err(e),
        }
    }

    /// One tick of the alert loop, `delay` milliseconds after the previous
    /// one. When alerting is off nothing moves. Otherwise the tick's delay
    /// lands on the streak the productivity flag selects; a streak crossing
    /// its threshold resets both, and only the unproductive crossing fires
    /// the alert.
    pub fn tick(&mut self, alerts_on: bool, is_prod: bool) -> (alert: bool)
        ensures
            final(self).config == old(self).config,
            !alerts_on ==> *final(self) == *old(self) && !alert,
            alerts_on && is_prod ==> {
                let p2 = sat_add64(old(self).productive as int, old(self).config.delay as int);
                &&& !alert
                &&& if p2 >= spec_minutes_as_ms(old(self).config.productive_time) {
                    final(self).productive == 0 && final(self).unproductive == 0
                } else {
                    final(self).productive == p2 && final(self).unproductive == old(
                        self,
                    ).unproductive
                }
            },
            alerts_on && !is_prod ==> {
                let u2 = sat_add64(old(self).unproductive as int, old(self).config.delay as int);
                &&& alert == (u2 >= spec_minutes_as_ms(old(self).config.unproductive_time))
                &&& if u2 >= spec_minutes_as_ms(old(self).config.unproductive_time) {
                    final(self).productive == 0 && final(self).unproductive == 0
                } else {
                    final(self).unproductive == u2 && final(self).productive == old(self).productive
                }
            },
    {
        if !alerts_on {
            return false;
        }
        if is_prod {
            self.productive = self.productive.saturating_add(self.config.delay);
            if self.productive >= minutes_as_ms(self.config.productive_time) {
                self.productive = 0;
                self.unproductive = 0;
            }
            false
        } else {
            self.unproductive = self.unproductive.saturating_add(self.config.delay);
            if self.unproductive >= minutes_as_ms(self.config.unproductive_time) {
                self.productive = 0;
                self.unproductive = 0;
                true
            } else {
                false
            }
        }
    }
}

} // verus!
