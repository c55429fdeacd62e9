//! Shared pieces of the long-running tasks: the `running` flag they all
//! observe, the outcome of a cancellable timed wait, and the error type their
//! results share.

use crate::alert::AlertError;
use crate::date_checker::DateError;
use crate::recorder::RecorderError;

use core::sync::atomic::{AtomicBool, Ordering};
use std::sync::Arc;

use vstd::prelude::*;

verus! {

/// A shared boolean flag, read and written by several tasks. Every write is a
/// full overwrite, so nothing is promised about what a load returns: another
/// task may store at any time.
#[derive(Clone, Debug)]
pub struct Running {
    val: Arc<AtomicBool>,
}

impl Running {
    pub fn new(val: bool) -> Self {
        Running { val: Arc::new(AtomicBool::new(val)) }
    }

    pub fn load(&self) -> bool {
        self.val.load(Ordering::SeqCst)
    }

    pub fn store(&self, val: bool) {
        self.val.store(val, Ordering::SeqCst);
    }
}

/// How a cancellable timed wait ended.
#[derive(Clone, Copy, Debug, PartialEq, Eq, Structural)]
pub enum WaitTimeout {
    /// The wait was woken before its deadline.
    Notified,
    /// The deadline passed.
    TimedOut,
}

/// What a long-running task died of.
#[derive(Clone, Debug, PartialEq, Eq)]
pub enum ClientError {
    /// A timed wait was interrupted by a stop request.
    TimeoutError,
    /// A task could not be joined (carries the join failure's description).
    JoinThreadError(String),
    AlertClientError(AlertError),
    /// The window watcher failed (carries the failure's description).
    EventClientError(String),
    RecorderClientError(RecorderError),
    DateClientError(DateError),
    /// The signal watcher failed (carries the failure's description).
    SignalClientError(String),
}

} // verus!
