use ssh_agent_router::error::ErrorKind;
use ssh_agent_router::supervisor::{Signal, Stage, Supervisor, Task};

fn accepting(limit: usize) -> Supervisor {
    let mut s = Supervisor::with_limit(limit);
    assert_eq!(s.handle(Signal::Start { stale: false }), Task::MakeParent);
    assert_eq!(s.handle(Signal::Done), Task::Bind);
    assert_eq!(s.handle(Signal::Done), Task::Accept);
    assert_eq!(s.stage(), Stage::Accepting);
    s
}

#[test]
fn stale_socket_cleanup() {
    let mut s = Supervisor::new();
    assert_eq!(s.stage(), Stage::Created);
    assert_eq!(s.handle(Signal::Start { stale: true }), Task::Remove);
    assert_eq!(s.handle(Signal::Done), Task::MakeParent);
    assert_eq!(s.handle(Signal::Done), Task::Bind);
    assert_eq!(s.handle(Signal::Done), Task::Accept);
    assert_eq!(s.stage(), Stage::Accepting);
    assert_eq!(s.handle(Signal::Shutdown), Task::Remove);
    assert_eq!(s.stage(), Stage::Removing);
    assert_eq!(s.handle(Signal::Done), Task::Stop(None));
    assert_eq!(s.stage(), Stage::Stopped);
}

#[test]
fn startup_failures_are_bind_failures() {
    for failing in 0..3 {
        let mut s = Supervisor::new();
        let mut task = s.handle(Signal::Start { stale: true });
        for _ in 0..failing {
            assert_ne!(task, Task::Stop(Some(ErrorKind::BindFailed)));
            task = s.handle(Signal::Done);
        }
        assert!(matches!(task, Task::Remove | Task::MakeParent | Task::Bind));
        assert_eq!(s.handle(Signal::Failed), Task::Stop(Some(ErrorKind::BindFailed)));
        assert_eq!(s.stage(), Stage::Stopped);
        assert_eq!(s.handle(Signal::Done), Task::Stop(None));
    }
}

#[test]
fn default_cap_is_one_hundred() {
    let mut s = Supervisor::new();
    assert_eq!(s.limit(), 100);
    s.handle(Signal::Start { stale: false });
    s.handle(Signal::Done);
    s.handle(Signal::Done);
    for n in 0..100 {
        assert_eq!(s.active(), n);
        assert_eq!(s.handle(Signal::Incoming), Task::Serve);
    }
    assert_eq!(s.handle(Signal::Incoming), Task::Reject);
    assert_eq!(s.active(), 100);
    assert_eq!(s.handle(Signal::Finished), Task::Accept);
    assert_eq!(s.active(), 99);
    assert_eq!(s.handle(Signal::Incoming), Task::Serve);
    assert_eq!(s.handle(Signal::Incoming), Task::Reject);
}

#[test]
fn connections_over_the_cap_are_rejected() {
    let mut s = accepting(2);
    assert_eq!(s.handle(Signal::Incoming), Task::Serve);
    assert_eq!(s.handle(Signal::Incoming), Task::Serve);
    assert_eq!(s.handle(Signal::Incoming), Task::Reject);
    assert_eq!(s.active(), 2);
    let mut none = accepting(0);
    assert_eq!(none.handle(Signal::Incoming), Task::Reject);
    assert_eq!(none.handle(Signal::Finished), Task::Accept);
    assert_eq!(none.active(), 0);
}

#[test]
fn shutdown_waits_for_workers_and_removes_the_file() {
    let mut s = accepting(5);
    s.handle(Signal::Incoming);
    s.handle(Signal::Incoming);
    assert_eq!(s.handle(Signal::Shutdown), Task::Wait);
    assert_eq!(s.stage(), Stage::Draining);
    assert_eq!(s.handle(Signal::Incoming), Task::Reject);
    assert_eq!(s.handle(Signal::Finished), Task::Wait);
    assert_eq!(s.handle(Signal::Finished), Task::Remove);
    assert_eq!(s.stage(), Stage::Removing);
    assert_eq!(s.handle(Signal::Failed), Task::Stop(None));
    assert_eq!(s.stage(), Stage::Stopped);
}

#[test]
fn shutdown_need_not_wait_forever() {
    let mut s = accepting(5);
    s.handle(Signal::Incoming);
    assert_eq!(s.handle(Signal::Shutdown), Task::Wait);
    assert_eq!(s.handle(Signal::Shutdown), Task::Remove);
    assert_eq!(s.handle(Signal::Finished), Task::Remove);
    assert_eq!(s.active(), 0);
    assert_eq!(s.handle(Signal::Done), Task::Stop(None));
}

#[test]
fn accept_errors_do_not_stop_the_endpoint() {
    let mut s = accepting(1);
    assert_eq!(s.handle(Signal::Failed), Task::Accept);
    assert_eq!(s.stage(), Stage::Accepting);
    assert_eq!(s.handle(Signal::Incoming), Task::Serve);
}
