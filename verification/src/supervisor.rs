//! The life of one endpoint on disk and at its listener: the socket file is
//! cleared, bound, served under a cap on concurrent connections, and removed
//! at shutdown. The supervisor decides; the program that drives it performs
//! each task and reports what came of it.

use crate::error::ErrorKind;
use vstd::prelude::*;

verus! {

/// Default cap on the connections that one endpoint serves at a time.
pub const MAX_CONCURRENT_CONNECTIONS: usize = 100;

/// Where an endpoint stands in its life.
#[derive(Clone, Copy, Debug, PartialEq, Eq, Structural)]
pub enum Stage {
    /// Nothing was done yet.
    Created,
    /// A file left at the endpoint's path is being removed.
    Clearing,
    /// The directory that holds the endpoint's path is being created.
    Preparing,
    /// The listener is being bound at the endpoint's path.
    Binding,
    /// The endpoint is bound and accepts connections.
    Accepting,
    /// The endpoint accepts no more and waits for its workers to finish.
    Draining,
    /// The endpoint's socket file is being removed.
    Removing,
    /// The endpoint is gone.
    Stopped,
}

/// What the driving program reports.
#[derive(Clone, Copy, Debug, PartialEq, Eq, Structural)]
pub enum Signal {
    /// The endpoint is to start; `stale` says whether a file exists at its
    /// path already.
    Start { stale: bool },
    /// The task that was asked for is done.
    Done,
    /// The task that was asked for failed.
    Failed,
    /// The listener accepted a connection.
    Incoming,
    /// A worker finished with its connection.
    Finished,
    /// The process is to terminate.
    Shutdown,
}

/// What the driving program is to do next.
#[derive(Clone, Copy, Debug, PartialEq, Eq, Structural)]
pub enum Task {
    /// Remove the file at the endpoint's path.
    Remove,
    /// Create the directory that holds the endpoint's path, if it is missing.
    MakeParent,
    /// Bind the listener at the endpoint's path.
    Bind,
    /// Wait for the next connection, worker or signal.
    Accept,
    /// Hand the accepted connection to a worker, and go on accepting.
    Serve,
    /// Close the accepted connection unserved, and go on waiting.
    Reject,
    /// Wait for a worker to finish.
    Wait,
    /// Nothing is left to do; an error says why the endpoint never served.
    Stop(Option<ErrorKind>),
}

/// What a supervisor holds, as mathematical values.
pub struct SupervisorModel {
    pub stage: Stage,
    pub active: int,
    pub limit: int,
}

/// Whether the endpoint's socket file is on disk and belongs to the endpoint.
pub open spec fn owns_file(stage: Stage) -> bool {
    stage == Stage::Accepting || stage == Stage::Draining || stage == Stage::Removing
}

/// The supervisor after `signal`, and the task that it asks for.
pub open spec fn supervise(state: SupervisorModel, signal: Signal) -> (SupervisorModel, Task) {
    let SupervisorModel { stage, active, limit } = state;
    let finished = if signal == Signal::Finished && active > 0 {
        active - 1
    } else {
        active
    };
    let failed = (
        SupervisorModel { stage: Stage::Stopped, active: finished, limit },
        Task::Stop(Some(ErrorKind::BindFailed)),
    );
    match stage {
        Stage::Created => match signal {
            Signal::Start { stale } => if stale {
                (SupervisorModel { stage: Stage::Clearing, active, limit }, Task::Remove)
            } else {
                (SupervisorModel { stage: Stage::Preparing, active, limit }, Task::MakeParent)
            },
            _ => failed,
        },
        Stage::Clearing => match signal {
            Signal::Done => (
                SupervisorModel { stage: Stage::Preparing, active, limit },
                Task::MakeParent,
            ),
            _ => failed,
        },
        Stage::Preparing => match signal {
            Signal::Done => (SupervisorModel { stage: Stage::Binding, active, limit }, Task::Bind),
            _ => failed,
        },
        Stage::Binding => match signal {
            Signal::Done => (
                SupervisorModel { stage: Stage::Accepting, active, limit },
                Task::Accept,
            ),
            _ => failed,
        },
        Stage::Accepting => match signal {
            Signal::Incoming => if active < limit {
                (SupervisorModel { stage, active: active + 1, limit }, Task::Serve)
            } else {
                (state, Task::Reject)
            },
            Signal::Shutdown => if active > 0 {
                (SupervisorModel { stage: Stage::Draining, active, limit }, Task::Wait)
            } else {
                (SupervisorModel { stage: Stage::Removing, active, limit }, Task::Remove)
            },
            _ => (SupervisorModel { stage, active: finished, limit }, Task::Accept),
        },
        Stage::Draining => match signal {
            Signal::Incoming => (state, Task::Reject),
            Signal::Finished => if finished > 0 {
                (SupervisorModel { stage, active: finished, limit }, Task::Wait)
            } else {
                (SupervisorModel { stage: Stage::Removing, active: finished, limit }, Task::Remove)
            },
            _ => (SupervisorModel { stage: Stage::Removing, active, limit }, Task::Remove),
        },
        Stage::Removing => match signal {
            Signal::Done | Signal::Failed => (
                SupervisorModel { stage: Stage::Stopped, active, limit },
                Task::Stop(None),
            ),
            _ => (SupervisorModel { stage, active: finished, limit }, Task::Remove),
        },
        Stage::Stopped => (SupervisorModel { stage, active: finished, limit }, Task::Stop(None)),
    }
}

/// The supervisor of one endpoint.
#[derive(Debug)]
pub struct Supervisor {
    stage: Stage,
    active: usize,
    limit: usize,
}

impl View for Supervisor {
    type V = SupervisorModel;

    closed spec fn view(&self) -> SupervisorModel {
        SupervisorModel {
            stage: self.stage,
            active: self.active as int,
            limit: self.limit as int,
        }
    }
}

impl Supervisor {
    /// No more connections are in service than the cap allows.
    #[verifier::type_invariant]
    spec fn within_cap(self) -> bool {
        self.active <= self.limit
    }

    /// A supervisor for an endpoint that was not started yet, with the default
    /// cap.
    pub fn new() -> (supervisor: Self)
        ensures
            supervisor@ == (SupervisorModel {
                stage: Stage::Created,
                active: 0,
                limit: MAX_CONCURRENT_CONNECTIONS as int,
            }),
    {
        Supervisor { stage: Stage::Created, active: 0, limit: MAX_CONCURRENT_CONNECTIONS }
    }

    /// A supervisor for an endpoint that was not started yet, which serves at
    /// most `limit` connections at a time.
    pub fn with_limit(limit: usize) -> (supervisor: Self)
        ensures
            supervisor@ == (SupervisorModel {
                stage: Stage::Created,
                active: 0,
                limit: limit as int,
            }),
    {
        Supervisor { stage: Stage::Created, active: 0, limit }
    }

    /// Where the endpoint stands.
    pub fn stage(&self) -> (stage: Stage)
        ensures
            stage == self@.stage,
    {
        self.stage
    }

    /// The number of connections in service, which never exceeds the cap.
    pub fn active(&self) -> (active: usize)
        ensures
            active == self@.active,
            active <= self@.limit,
    {
        proof {
            use_type_invariant(self);
        }
        self.active
    }

    /// The cap on the connections in service.
    pub fn limit(&self) -> (limit: usize)
        ensures
            limit == self@.limit,
    {
        self.limit
    }

    /// Takes in what the driving program reports and says what it is to do
    /// next.
    pub fn handle(&mut self, signal: Signal) -> (task: Task)
        ensures
            (final(self)@, task) == supervise(old(self)@, signal),
    {
        proof {
            use_type_invariant(&*self);
        }
        let finished: usize = match signal {
            Signal::Finished => if self.active > 0 {
                self.active - 1
            } else {
                self.active
            },
            _ => self.active,
        };
        match self.stage {
            Stage::Created => match signal {
                Signal::Start { stale } => if stale {
                    self.stage = Stage::Clearing;
                    Task::Remove
                } else {
                    self.stage = Stage::Preparing;
                    Task::MakeParent
                },
                _ => {
                    self.stage = Stage::Stopped;
                    self.active = finished;
                    Task::Stop(Some(ErrorKind::BindFailed))
                },
            },
            Stage::Clearing => match signal {
                Signal::Done => {
                    self.stage = Stage::Preparing;
                    Task::MakeParent
                },
                _ => {
                    self.stage = Stage::Stopped;
                    self.active = finished;
                    Task::Stop(Some(ErrorKind::BindFailed))
                },
            },
            Stage::Preparing => match signal {
                Signal::Done => {
                    self.stage = Stage::Binding;
                    Task::Bind
                },
                _ => {
                    self.stage = Stage::Stopped;
                    self.active = finished;
                    Task::Stop(Some(ErrorKind::BindFailed))
                },
            },
            Stage::Binding => match signal {
                Signal::Done => {
                    self.stage = Stage::Accepting;
                    Task::Accept
                },
                _ => {
                    self.stage = Stage::Stopped;
                    self.active = finished;
                    Task::Stop(Some(ErrorKind::BindFailed))
                },
            },
            Stage::Accepting => match signal {
                Signal::Incoming => if self.active < self.limit {
                    self.active = self.active + 1;
                    Task::Serve
                } else {
                    Task::Reject
                },
                Signal::Shutdown => if self.active > 0 {
                    self.stage = Stage::Draining;
                    Task::Wait
                } else {
                    self.stage = Stage::Removing;
                    Task::Remove
                },
                _ => {
                    self.active = finished;
                    Task::Accept
                },
            },
            Stage::Draining => match signal {
                Signal::Incoming => Task::Reject,
                Signal::Finished => {
                    self.active = finished;
                    if finished > 0 {
                        Task::Wait
                    } else {
                        self.stage = Stage::Removing;
                        Task::Remove
                    }
                },
                _ => {
                    self.stage = Stage::Removing;
                    Task::Remove
                },
            },
            Stage::Removing => match signal {
                Signal::Done | Signal::Failed => {
                    self.stage = Stage::Stopped;
                    Task::Stop(None)
                },
                _ => {
                    self.active = finished;
                    Task::Remove
                },
            },
            Stage::Stopped => {
                self.active = finished;
                Task::Stop(None)
            },
        }
    }
}

} // verus!
