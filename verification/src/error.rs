//! The kinds of failure that the router reports at its boundary.

use vstd::prelude::*;

verus! {

/// Why an operation of the router failed.
#[derive(Clone, Copy, Debug, PartialEq, Eq, Structural)]
pub enum ErrorKind {
    /// The configuration names no usable upstream agent or no endpoint.
    ConfigInvalid,
    /// The endpoint's socket path could not be bound.
    BindFailed,
    /// The upstream agent's endpoint is missing or refused the connection.
    Unreachable,
    /// The upstream agent answered with a malformed or unexpected frame.
    Protocol,
    /// A frame exceeds the size ceiling or its inner lengths run past its end.
    MalformedFrame,
    /// A read or write on a stream was cut short.
    Io,
}

} // verus!
