//! Evented TCP sockets for cooperative schedulers.
//!
//! A socket handle is registered with a [`Reactor`] under a token and a fixed
//! readiness interest. Every operation makes a single non-blocking attempt and
//! reports "would block" to the caller, who suspends and retries when the
//! reactor signals readiness. The operating system is reached only through the
//! functions that the caller hands in, so every rule here holds whatever the
//! system answers.

pub mod addr;
pub mod error;
pub mod evented;
pub mod interest;
pub mod reactor;
pub mod tcp;

pub use addr::each_addr;
pub use error::{Error, OsError, OsErrorKind, RegistrationFault, ResolutionFault};
pub use evented::GenericEvented;
pub use interest::{Interest, Token};
pub use reactor::Reactor;
pub use tcp::{make_listener_handle, make_stream_handle, Incoming, TcpListener, TcpStream};
