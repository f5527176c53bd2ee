//! Errors that socket operations report.

use vstd::prelude::*;

verus! {

/// The portable class of an operating-system error.
#[derive(Clone, Copy, Debug, PartialEq, Eq, Structural)]
pub enum OsErrorKind {
    WouldBlock,
    AddrInUse,
    AddrNotAvailable,
    PermissionDenied,
    ConnectionRefused,
    ConnectionReset,
    ConnectionAborted,
    NotConnected,
    AlreadyExists,
    InvalidInput,
    Interrupted,
    TimedOut,
    Other,
}

/// An error as the operating system reported it: its class and its raw code
/// (0 where the system gave none).
#[derive(Clone, Copy, Debug, PartialEq, Eq, Structural)]
pub struct OsError {
    pub kind: OsErrorKind,
    pub code: i32,
}

/// Why an endpoint descriptor gave no candidate address.
#[derive(Clone, Copy, Debug, PartialEq, Eq, Structural)]
pub enum ResolutionFault {
    /// The resolver itself failed.
    Failed(OsError),
    /// The resolver answered with an empty sequence.
    NoAddresses,
}

/// Why a handle could not be registered with, or removed from, the reactor.
#[derive(Clone, Copy, Debug, PartialEq, Eq, Structural)]
pub enum RegistrationFault {
    /// Every token of the reactor is in use.
    Full,
    /// The system's poller refused the handle.
    Refused(OsError),
    /// The token is not registered with this reactor.
    NotRegistered,
}

/// The outcome of a socket operation that did not succeed.
#[derive(Clone, Copy, Debug, PartialEq, Eq, Structural)]
pub enum Error {
    /// The endpoint descriptor resolved to no usable address.
    Resolution(ResolutionFault),
    /// The reactor did not take the handle.
    Registration(RegistrationFault),
    /// The system failed a bind, connect, accept or duplicate.
    Connection(OsError),
    /// The operation cannot complete yet; retry on readiness.
    WouldBlock,
}

impl OsError {
    pub open spec fn is_would_block(self) -> bool {
        self.kind == OsErrorKind::WouldBlock
    }
}

impl Error {
    /// The error that a failed socket call surfaces: "would block" stays what
    /// it is, everything else is a connection error carrying the system's own.
    pub open spec fn of_os(os: OsError) -> Error {
        if os.is_would_block() {
            Error::WouldBlock
        } else {
            Error::Connection(os)
        }
    }

    /// The error that a failed resolution surfaces.
    pub open spec fn of_resolver(os: OsError) -> Error {
        Error::Resolution(ResolutionFault::Failed(os))
    }

    /// The error that a refused registration surfaces.
    pub open spec fn of_poller(os: OsError) -> Error {
        Error::Registration(RegistrationFault::Refused(os))
    }

    pub fn from_os(os: OsError) -> (e: Error)
        ensures
            e == Error::of_os(os),
    {
        match os.kind {
            OsErrorKind::WouldBlock => Error::WouldBlock,
            _ => Error::Connection(os),
        }
    }

    /// Whether the caller should suspend and retry rather than give up.
    pub fn is_would_block(&self) -> (b: bool)
        ensures
            b == (*self == Error::WouldBlock),
    {
        match self {
            Error::WouldBlock => true,
            _ => false,
        }
    }
}

} // verus!
