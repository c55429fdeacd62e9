use septem::server::{Server, ServerAction, ServerEvent, ServerState};

#[test]
fn startup_spawns_when_the_schedule_says_on() {
    let mut s = Server::new();
    assert_eq!(s.state, ServerState::Init);
    assert!(!s.is_running());
    let a = s.step(ServerEvent::ScheduleWait(true));
    assert_eq!(a, ServerAction::SpawnClients);
    assert_eq!(s.state, ServerState::Running);
    assert!(s.is_running());
}

#[test]
fn startup_waits_out_an_inactive_schedule() {
    let mut s = Server::new();
    let a = s.step(ServerEvent::ScheduleWait(false));
    assert_eq!(a, ServerAction::WaitSchedule);
    assert_eq!(s.state, ServerState::Init);
}

#[test]
fn immediate_end_of_monitoring_stops_and_joins_every_task() {
    // A running supervisor told at once that monitoring ends moves to
    // Stopped, and the ordered action joins all spawned task handles before
    // anything else happens.
    let mut s = Server::new();
    s.step(ServerEvent::ScheduleWait(true));
    assert!(s.is_running());
    let a = s.step(ServerEvent::ScheduleWait(false));
    assert_eq!(a, ServerAction::StopAndJoin);
    assert_eq!(s.state, ServerState::Stopped);
    assert!(!s.is_running());
}

#[test]
fn stopped_supervisor_restarts_on_the_next_start_of_monitoring() {
    let mut s = Server::new();
    s.step(ServerEvent::ScheduleWait(true));
    s.step(ServerEvent::ScheduleWait(false));
    // Excluded days may pass while stopped.
    assert_eq!(s.step(ServerEvent::ScheduleWait(false)), ServerAction::WaitSchedule);
    assert_eq!(s.state, ServerState::Stopped);
    let a = s.step(ServerEvent::ScheduleWait(true));
    assert_eq!(a, ServerAction::SpawnClients);
    assert_eq!(s.state, ServerState::Running);
}

#[test]
fn terminate_while_running_drains_before_returning() {
    let mut s = Server::new();
    s.step(ServerEvent::ScheduleWait(true));
    let a = s.step(ServerEvent::Terminate);
    assert_eq!(a, ServerAction::StopAndJoin);
    assert_eq!(s.state, ServerState::Done);
    assert!(s.is_done());
}

#[test]
fn terminate_while_stopped_exits_at_once() {
    let mut s = Server::new();
    s.step(ServerEvent::ScheduleWait(true));
    s.step(ServerEvent::ScheduleWait(false));
    let a = s.step(ServerEvent::Terminate);
    assert_eq!(a, ServerAction::Exit);
    assert_eq!(s.state, ServerState::Done);
}

#[test]
fn clients_finishing_on_their_own_ends_the_supervisor() {
    let mut s = Server::new();
    s.step(ServerEvent::ScheduleWait(true));
    let a = s.step(ServerEvent::ClientsDone(false));
    assert_eq!(a, ServerAction::Exit);
    assert_eq!(s.state, ServerState::Done);
}

#[test]
fn schedule_wait_tear_down_while_running_still_joins() {
    let mut s = Server::new();
    s.step(ServerEvent::ScheduleWait(true));
    let a = s.step(ServerEvent::ScheduleClosed);
    assert_eq!(a, ServerAction::StopAndJoin);
    assert_eq!(s.state, ServerState::Done);
}

#[test]
fn done_is_terminal() {
    let mut s = Server::new();
    s.step(ServerEvent::Terminate);
    assert_eq!(s.state, ServerState::Done);
    assert_eq!(s.step(ServerEvent::ScheduleWait(true)), ServerAction::Exit);
    assert_eq!(s.state, ServerState::Done);
}
