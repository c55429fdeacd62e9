//! The supervisor: owns the lifecycle of the monitoring tasks (recorder,
//! alerter, window watcher) as a state machine over plain values. The
//! surrounding process runs the loop: it performs each returned action
//! (spawning tasks, arming the schedule wait, stopping and joining) and hands
//! the next event back in. Every transition decision is made here.

use crate::alert::AlertError;
use crate::client::ClientError;
use crate::date_checker::DateError;
use crate::recorder::RecorderError;

use vstd::prelude::*;

verus! {

#[derive(Clone, Debug, PartialEq, Eq)]
pub enum ServerError {
    /// A task could not be joined (carries the join failure's description).
    JoinAllError(String),
    /// A task died with an error while monitoring ran.
    RunningClientError(ClientError),
    StartUpAlertError(AlertError),
    /// The configuration could not be loaded (carries the loader's message).
    StartUpConfigError(String),
    StartUpDateError(DateError),
    StartUpRecorderError(RecorderError),
    /// The window watcher could not be set up (carries the description).
    StartUpEventError(String),
    /// The signal watcher could not be set up (carries the description).
    StartUpSignalError(String),
}

/// Where the supervisor stands. Exactly one state is live at a time; the
/// monitoring tasks run exactly while it is `Running`.
#[derive(Clone, Copy, Debug, PartialEq, Eq, Structural)]
pub enum ServerState {
    /// Started, no tasks spawned yet.
    Init,
    /// Monitoring tasks are live.
    Running,
    /// Monitoring tasks were stopped and joined; waiting for the schedule to
    /// start them again.
    Stopped,
    /// The supervisor is done; its loop ends.
    Done,
}

/// What the supervisor's wait resolved to.
#[derive(Clone, Copy, Debug, PartialEq, Eq, Structural)]
pub enum ServerEvent {
    /// The schedule wait elapsed; the payload says whether monitoring should
    /// now be on.
    ScheduleWait(bool),
    /// The schedule wait was torn down and will not report again.
    ScheduleClosed,
    /// The join of all monitoring tasks resolved; the payload says whether
    /// every task ended without error.
    ClientsDone(bool),
    /// An external terminate signal arrived.
    Terminate,
}

/// What the surrounding process must do before handing in the next event.
#[derive(Clone, Copy, Debug, PartialEq, Eq, Structural)]
pub enum ServerAction {
    /// Reload the configuration, spawn recorder, alerter and window watcher,
    /// set the shared `running` flag, and re-arm the schedule wait.
    SpawnClients,
    /// Only re-arm the schedule wait.
    WaitSchedule,
    /// Clear the shared `running` flag, wake every task's wait, and block
    /// until every spawned task handle has completed.
    StopAndJoin,
    /// Leave the loop, propagating the outcome gathered so far.
    Exit,
}

/// The supervisor's transition table.
pub open spec fn spec_step(s: ServerState, e: ServerEvent) -> (ServerState, ServerAction) {
    match s {
        ServerState::Init => match e {
            ServerEvent::ScheduleWait(true) => (ServerState::Running, ServerAction::SpawnClients),
            ServerEvent::ScheduleWait(false) => (ServerState::Init, ServerAction::WaitSchedule),
            ServerEvent::ScheduleClosed => (ServerState::Done, ServerAction::Exit),
            ServerEvent::ClientsDone(_) => (ServerState::Done, ServerAction::Exit),
            ServerEvent::Terminate => (ServerState::Done, ServerAction::Exit),
        },
        ServerState::Running => match e {
            ServerEvent::ScheduleWait(true) => (ServerState::Running, ServerAction::WaitSchedule),
            ServerEvent::ScheduleWait(false) => (ServerState::Stopped, ServerAction::StopAndJoin),
            ServerEvent::ScheduleClosed => (ServerState::Done, ServerAction::StopAndJoin),
            ServerEvent::ClientsDone(_) => (ServerState::Done, ServerAction::Exit),
            ServerEvent::Terminate => (ServerState::Done, ServerAction::StopAndJoin),
        },
        ServerState::Stopped => match e {
            ServerEvent::ScheduleWait(true) => (ServerState::Running, ServerAction::SpawnClients),
            ServerEvent::ScheduleWait(false) => (ServerState::Stopped, ServerAction::WaitSchedule),
            ServerEvent::ScheduleClosed => (ServerState::Done, ServerAction::Exit),
            ServerEvent::ClientsDone(_) => (ServerState::Stopped, ServerAction::WaitSchedule),
            ServerEvent::Terminate => (ServerState::Done, ServerAction::Exit),
        },
        ServerState::Done => (ServerState::Done, ServerAction::Exit),
    }
}

/// Whether any monitoring task is still live after the event was observed
/// and the action carried out, given whether any was live before.
pub open spec fn spec_tasks_after(e: ServerEvent, a: ServerAction, live_before: bool) -> bool {
    if e is ClientsDone {
        false
    } else {
        match a {
            ServerAction::SpawnClients => true,
            ServerAction::WaitSchedule => live_before,
            ServerAction::StopAndJoin => false,
            ServerAction::Exit => live_before,
        }
    }
}

/// The supervisor.
pub struct Server {
    pub state: ServerState,
}

impl Server {
    pub fn new() -> (s: Server)
        ensures
            s.state == ServerState::Init,
    {
        Server { state: ServerState::Init }
    }

    pub fn is_running(&self) -> (r: bool)
        ensures
            r == (self.state == ServerState::Running),
    {
        matches!(self.state, ServerState::Running)
    }

    pub fn is_done(&self) -> (r: bool)
        ensures
            r == (self.state == ServerState::Done),
    {
        matches!(self.state, ServerState::Done)
    }

    /// One transition: observes the event, moves to the next state, and says
    /// what the surrounding process must do.
    pub fn step(&mut self, event: ServerEvent) -> (a: ServerAction)
        ensures
            (final(self).state, a) == spec_step(old(self).state, event),
    {
        let (next, action) = match (self.state, event) {
            (ServerState::Init, ServerEvent::ScheduleWait(true)) => (
                ServerState::Running,
                ServerAction::SpawnClients,
            ),
            (ServerState::Init, ServerEvent::ScheduleWait(false)) => (
                ServerState::Init,
                ServerAction::WaitSchedule,
            ),
            (ServerState::Init, _) => (ServerState::Done, ServerAction::Exit),
            (ServerState::Running, ServerEvent::ScheduleWait(true)) => (
                ServerState::Running,
                ServerAction::WaitSchedule,
            ),
            (ServerState::Running, ServerEvent::ScheduleWait(false)) => (
                ServerState::Stopped,
                ServerAction::StopAndJoin,
            ),
            (ServerState::Running, ServerEvent::ScheduleClosed) => (
                ServerState::Done,
                ServerAction::StopAndJoin,
            ),
            (ServerState::Running, ServerEvent::ClientsDone(_)) => (
                ServerState::Done,
                ServerAction::Exit,
            ),
            (ServerState::Running, ServerEvent::Terminate) => (
                ServerState::Done,
                ServerAction::StopAndJoin,
            ),
            (ServerState::Stopped, ServerEvent::ScheduleWait(true)) => (
                ServerState::Running,
                ServerAction::SpawnClients,
            ),
            (ServerState::Stopped, ServerEvent::ScheduleWait(false)) => (
                ServerState::Stopped,
                ServerAction::WaitSchedule,
            ),
            (ServerState::Stopped, ServerEvent::ClientsDone(_)) => (
                ServerState::Stopped,
                ServerAction::WaitSchedule,
            ),
            (ServerState::Stopped, _) => (ServerState::Done, ServerAction::Exit),
            (ServerState::Done, _) => (ServerState::Done, ServerAction::Exit),
        };
        self.state = next;
        action
    }
}

/// No task is leaked and no stop is raced: if the monitoring tasks are live
/// exactly in the `Running` state before a step, the same holds after the
/// step's action is carried out. In particular, every transition that leaves
/// `Running` orders a stop-and-join (or follows the tasks' own completion),
/// so the supervisor never proceeds past a stop with a task still live.
pub proof fn lemma_no_task_leak(s: ServerState, e: ServerEvent)
    ensures
        ({
            let (s2, a) = spec_step(s, e);
            spec_tasks_after(e, a, s == ServerState::Running) == (s2 == ServerState::Running)
        }),
{
}

/// A running supervisor told that monitoring should stop moves to `Stopped`
/// and orders the stop-and-join of every spawned task before anything else
/// happens.
pub proof fn lemma_stop_transition()
    ensures
        spec_step(ServerState::Running, ServerEvent::ScheduleWait(false)) == (
            ServerState::Stopped,
            ServerAction::StopAndJoin,
        ),
{
}

} // verus!
