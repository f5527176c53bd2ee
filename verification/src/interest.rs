//! Tokens and readiness interests.

use vstd::prelude::*;

verus! {

/// The identifier under which a handle is registered with the reactor.
#[derive(Clone, Copy, Debug, PartialEq, Eq, Hash, Structural)]
pub struct Token(pub usize);

/// The readiness conditions that a registered handle wants to hear about.
#[derive(Clone, Copy, Debug, PartialEq, Eq, Structural)]
pub enum Interest {
    Readable,
    Writable,
    Both,
}

impl Interest {
    pub open spec fn wants_read(self) -> bool {
        self != Interest::Writable
    }

    pub open spec fn wants_write(self) -> bool {
        self != Interest::Readable
    }

    /// The interest of a listening socket: incoming connections make it readable.
    pub open spec fn listener() -> Interest {
        Interest::Readable
    }

    /// The interest of a connected socket: it is read from and written to.
    pub open spec fn stream() -> Interest {
        Interest::Both
    }

    pub fn is_readable(&self) -> (b: bool)
        ensures
            b == self.wants_read(),
    {
        match self {
            Interest::Writable => false,
            _ => true,
        }
    }

    pub fn is_writable(&self) -> (b: bool)
        ensures
            b == self.wants_write(),
    {
        match self {
            Interest::Readable => false,
            _ => true,
        }
    }
}

} // verus!
