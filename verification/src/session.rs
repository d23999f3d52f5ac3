//! The mediation of one client connection, as a machine that is stepped from
//! outside: every step takes what the last operation on a stream brought and
//! says which operation comes next. The machine never touches a stream itself.

use crate::agent::{forwarded, list_request_frame, Exchange, ExchangeModel};
use crate::error::ErrorKind;
use crate::socket::Policy;
use crate::wire::{
    be32, declared_length, failure_frame, parse_sign_blob, REQUEST_IDENTITIES, SIGN_REQUEST,
};
use vstd::prelude::*;

verus! {

/// Where a connection stands between two operations.
#[derive(Debug, PartialEq, Eq)]
pub enum Session {
    /// The four bytes of the next request's length are being read.
    Idle,
    /// The body of a request of the declared length is being read.
    Body { declared: u32 },
    /// The upstream identities are being listed, to vet the signing request in
    /// the frame `request`.
    Vetting { request: Vec<u8> },
    /// A request is with the upstream agent; `listing` says whether it asked
    /// for the identities.
    Relaying { listing: bool },
    /// An answer is being written to the client; `closing` says whether the
    /// connection ends after it.
    Answering { closing: bool },
    /// The connection is over.
    Closed,
}

/// What a [`Session`] holds, as mathematical values.
pub enum SessionModel {
    Idle,
    Body { declared: int },
    Vetting { request: Seq<u8> },
    Relaying { listing: bool },
    Answering { closing: bool },
    Closed,
}

impl View for Session {
    type V = SessionModel;

    open spec fn view(&self) -> SessionModel {
        match self {
            Session::Idle => SessionModel::Idle,
            Session::Body { declared } => SessionModel::Body { declared: *declared as int },
            Session::Vetting { request } => SessionModel::Vetting { request: request@ },
            Session::Relaying { listing } => SessionModel::Relaying { listing: *listing },
            Session::Answering { closing } => SessionModel::Answering { closing: *closing },
            Session::Closed => SessionModel::Closed,
        }
    }
}

/// What the last operation brought.
#[derive(Debug, PartialEq, Eq)]
pub enum Event {
    /// The read from the client brought exactly the bytes asked for.
    Read(Vec<u8>),
    /// The client closed the stream before the first byte of the read.
    Eof,
    /// The read from the client or the write to it failed or was cut short.
    Failed,
    /// The write to the client is done.
    Written,
    /// The exchange with the upstream agent ended.
    Upstream(Exchange),
}

/// What an [`Event`] holds, as mathematical values.
pub enum EventModel {
    Read(Seq<u8>),
    Eof,
    Failed,
    Written,
    Upstream(ExchangeModel),
}

impl View for Event {
    type V = EventModel;

    open spec fn view(&self) -> EventModel {
        match self {
            Event::Read(bytes) => EventModel::Read(bytes@),
            Event::Eof => EventModel::Eof,
            Event::Failed => EventModel::Failed,
            Event::Written => EventModel::Written,
            Event::Upstream(exchange) => EventModel::Upstream(exchange@),
        }
    }
}

/// The operation to perform next.
#[derive(Debug, PartialEq, Eq)]
pub enum Action {
    /// Read exactly this many bytes from the client.
    Read(u32),
    /// Write these bytes to the client.
    Write(Vec<u8>),
    /// Send these bytes to the upstream agent over a fresh connection and read
    /// its answer.
    Forward(Vec<u8>),
    /// Close the connection: in good order where there is no error.
    Close(Option<ErrorKind>),
}

/// What an [`Action`] holds, as mathematical values.
pub enum ActionModel {
    Read(int),
    Write(Seq<u8>),
    Forward(Seq<u8>),
    Close(Option<ErrorKind>),
}

impl View for Action {
    type V = ActionModel;

    open spec fn view(&self) -> ActionModel {
        match self {
            Action::Read(n) => ActionModel::Read(*n as int),
            Action::Write(bytes) => ActionModel::Write(bytes@),
            Action::Forward(bytes) => ActionModel::Forward(bytes@),
            Action::Close(error) => ActionModel::Close(*error),
        }
    }
}

/// The outcome of one step: where the connection stands now, and what to do.
#[derive(Debug, PartialEq, Eq)]
pub struct Step {
    pub session: Session,
    pub action: Action,
}

/// What a [`Step`] holds, as mathematical values.
pub struct StepModel {
    pub session: SessionModel,
    pub action: ActionModel,
}

impl View for Step {
    type V = StepModel;

    open spec fn view(&self) -> StepModel {
        StepModel { session: self.session@, action: self.action@ }
    }
}

/// The step that ends the connection, in good order where `error` is `None`.
pub open spec fn closing(error: Option<ErrorKind>) -> StepModel {
    StepModel { session: SessionModel::Closed, action: ActionModel::Close(error) }
}

/// The step that writes `answer` to the client and then goes on with the next
/// request.
pub open spec fn answering(answer: Seq<u8>) -> StepModel {
    StepModel {
        session: SessionModel::Answering { closing: false },
        action: ActionModel::Write(answer),
    }
}

/// The step with which every connection begins: read the length of the first
/// request.
pub open spec fn opening() -> StepModel {
    StepModel { session: SessionModel::Idle, action: ActionModel::Read(4) }
}

/// The step after a request's header was read: read the body it declares, or,
/// where the header is not four bytes or declares more than the ceiling, answer
/// with a failure and close.
pub open spec fn after_header(policy: Policy, header: Seq<u8>) -> StepModel {
    match declared_length(header, policy.frame_limit) {
        Some(n) => StepModel {
            session: SessionModel::Body { declared: n },
            action: ActionModel::Read(n),
        },
        None => StepModel {
            session: SessionModel::Answering { closing: true },
            action: ActionModel::Write(failure_frame()),
        },
    }
}

/// Whether `body` is the body of a request for the identity list.
pub open spec fn is_list_request(body: Seq<u8>) -> bool {
    body.len() > 0 && body[0] == REQUEST_IDENTITIES
}

/// Whether `body` is the body of a signing request.
pub open spec fn is_sign_request(body: Seq<u8>) -> bool {
    body.len() > 0 && body[0] == SIGN_REQUEST
}

/// The step after a request's body was read. A signing request whose key blob
/// can be read waits while the upstream identities are listed; every other
/// request goes upstream as it came.
pub open spec fn after_body(declared: int, body: Seq<u8>) -> StepModel {
    let request = be32(declared) + body;
    if body.len() != declared {
        closing(Some(ErrorKind::Io))
    } else if is_sign_request(body) && parse_sign_blob(body) is Some {
        StepModel {
            session: SessionModel::Vetting { request },
            action: ActionModel::Forward(list_request_frame()),
        }
    } else {
        StepModel {
            session: SessionModel::Relaying { listing: is_list_request(body) },
            action: ActionModel::Forward(request),
        }
    }
}

/// The step after the upstream identities were listed for a signing request:
/// refuse it with a failure, forward it, or answer with a failure where the
/// listing failed.
pub open spec fn after_listing(
    policy: Policy,
    request: Seq<u8>,
    listing: ExchangeModel,
) -> StepModel {
    match policy.sign_verdict(request, listing) {
        Ok(Some(refusal)) => answering(refusal),
        Ok(None) => StepModel {
            session: SessionModel::Relaying { listing: false },
            action: ActionModel::Forward(request),
        },
        Err(_) => answering(failure_frame()),
    }
}

/// The step after the upstream agent answered a forwarded request: relay the
/// answer as it came, or, for a request for the identity list, the rewritten
/// list. Every upstream error becomes a failure for the client.
pub open spec fn after_answer(policy: Policy, listing: bool, exchange: ExchangeModel) -> StepModel {
    match forwarded(exchange) {
        Ok(answer) => if listing {
            match policy.rewritten(answer) {
                Ok(list) => answering(list),
                Err(_) => answering(failure_frame()),
            }
        } else {
            answering(answer)
        },
        Err(_) => answering(failure_frame()),
    }
}

/// The step that the mediator takes from `session` on `event`.
///
/// An event that does not belong to the operation that `session` waits for
/// ends the connection with `Io`.
pub open spec fn next_step(policy: Policy, session: SessionModel, event: EventModel) -> StepModel {
    match (session, event) {
        (SessionModel::Idle, EventModel::Eof) => closing(None),
        (SessionModel::Idle, EventModel::Read(header)) => after_header(policy, header),
        (SessionModel::Body { declared }, EventModel::Read(body)) => after_body(declared, body),
        (SessionModel::Vetting { request }, EventModel::Upstream(listing)) => after_listing(
            policy,
            request,
            listing,
        ),
        (SessionModel::Relaying { listing }, EventModel::Upstream(exchange)) => after_answer(
            policy,
            listing,
            exchange,
        ),
        (SessionModel::Answering { closing: last }, EventModel::Written) => if last {
            closing(Some(ErrorKind::MalformedFrame))
        } else {
            opening()
        },
        (SessionModel::Closed, _) => closing(None),
        _ => closing(Some(ErrorKind::Io)),
    }
}

impl Session {
    /// The first step of a connection: nothing was read yet, and the length of
    /// the first request is to be read.
    pub fn start() -> (step: Step)
        ensures
            step@ == opening(),
    {
        Step { session: Session::Idle, action: Action::Read(4) }
    }
}

} // verus!
