//! TCP listeners and streams over readiness handles.

use vstd::prelude::*;
use crate::error::{Error, OsError};
use crate::evented::{establishes, opens, token_of, GenericEvented};
use crate::interest::{Interest, Token};
use crate::reactor::{after_registration, deregisters, registers, Reactor};

verus! {

/// A listening socket, registered for readability: it becomes readable when a
/// connection is waiting to be accepted.
pub struct TcpListener<L> {
    evented: GenericEvented<L>,
}

/// A connected socket, registered for readability and writability.
pub struct TcpStream<S> {
    evented: GenericEvented<S>,
}

/// The connections that arrive at a listener, one `accept` per pull. It holds
/// nothing but the listener it was made for, so it never ends by itself and
/// two of them on one listener do not know of each other.
pub struct Incoming<'a, L> {
    listener: &'a TcpListener<L>,
}

/// The handle inside a listener that was made, or the error where none was.
pub open spec fn listener_handle<L>(made: Result<TcpListener<L>, Error>) -> Result<
    GenericEvented<L>,
    Error,
> {
    match made {
        Ok(listener) => Ok(listener.handle()),
        Err(e) => Err(e),
    }
}

/// The handle inside a stream that was made, or the error where none was.
pub open spec fn stream_handle<S>(made: Result<TcpStream<S>, Error>) -> Result<
    GenericEvented<S>,
    Error,
> {
    match made {
        Ok(stream) => Ok(stream.handle()),
        Err(e) => Err(e),
    }
}

/// The handle inside an accepted stream, or the error where none was accepted.
pub open spec fn accepted_handle<S, A>(made: Result<(TcpStream<S>, A), Error>) -> Result<
    GenericEvented<S>,
    Error,
> {
    match made {
        Ok((stream, _)) => Ok(stream.handle()),
        Err(e) => Err(e),
    }
}

/// `made` is a possible result of one accept on `socket` while the register
/// holds `live`: what the system answers to the one non-blocking attempt is
/// surfaced as it is, "would block" included, and a connection that was
/// accepted is registered for reading and writing and returned with the
/// address of its peer. Where that registration fails the connection is lost.
pub open spec fn accepts<
    L,
    S,
    A,
    C: Fn(&L) -> Result<(S, A), OsError>,
    F: Fn(&S, Token, Interest) -> Result<(), OsError>,
>(
    live: Map<Token, Interest>,
    limit: nat,
    socket: &L,
    accept_raw: &C,
    attach: &F,
    made: Result<(TcpStream<S>, A), Error>,
) -> bool {
    exists|accepted: Result<(S, A), OsError>| #[trigger]
        call_ensures(*accept_raw, (socket,), accepted) && match accepted {
            Err(os) => made == Err::<(TcpStream<S>, A), Error>(Error::of_os(os)),
            Ok((raw, peer)) => {
                &&& registers(
                    live,
                    limit,
                    &raw,
                    Interest::stream(),
                    attach,
                    token_of(accepted_handle(made)),
                )
                &&& made matches Ok((stream, from)) ==> stream.handle().spec_inner() == raw
                    && stream.handle().spec_interest() == Interest::stream() && from == peer
            },
        }
}

/// Registers an open listening socket with read interest and wraps it. Where
/// the registration fails the socket is dropped, which closes it.
pub fn make_listener_handle<L, F>(reactor: &mut Reactor, inner: L, attach: &F) -> (made: Result<
    TcpListener<L>,
    Error,
>) where F: Fn(&L, Token, Interest) -> Result<(), OsError>
    requires
        old(reactor).wf(),
        forall|t: Token| call_requires(*attach, (&inner, t, Interest::listener())),
    ensures
        final(reactor).wf(),
        final(reactor).limit() == old(reactor).limit(),
        registers(
            old(reactor)@,
            old(reactor).limit(),
            &inner,
            Interest::listener(),
            attach,
            token_of(listener_handle(made)),
        ),
        final(reactor)@ == after_registration(
            old(reactor)@,
            Interest::listener(),
            token_of(listener_handle(made)),
        ),
        made matches Ok(listener) ==> listener.handle().spec_inner() == inner
            && listener.handle().spec_interest() == Interest::listener()
            && listener.handle().registered_in(final(reactor)@),
{
    match GenericEvented::new(reactor, inner, Interest::Readable, attach) {
        Ok(evented) => Ok(TcpListener { evented }),
        Err(e) => Err(e),
    }
}

/// Registers an open stream socket with read and write interest and wraps it.
/// Where the registration fails the socket is dropped, which closes it.
pub fn make_stream_handle<S, F>(reactor: &mut Reactor, inner: S, attach: &F) -> (made: Result<
    TcpStream<S>,
    Error,
>) where F: Fn(&S, Token, Interest) -> Result<(), OsError>
    requires
        old(reactor).wf(),
        forall|t: Token| call_requires(*attach, (&inner, t, Interest::stream())),
    ensures
        final(reactor).wf(),
        final(reactor).limit() == old(reactor).limit(),
        registers(
            old(reactor)@,
            old(reactor).limit(),
            &inner,
            Interest::stream(),
            attach,
            token_of(stream_handle(made)),
        ),
        final(reactor)@ == after_registration(
            old(reactor)@,
            Interest::stream(),
            token_of(stream_handle(made)),
        ),
        made matches Ok(stream) ==> stream.handle().spec_inner() == inner
            && stream.handle().spec_interest() == Interest::stream()
            && stream.handle().registered_in(final(reactor)@),
{
    match GenericEvented::new(reactor, inner, Interest::Both, attach) {
        Ok(evented) => Ok(TcpStream { evented }),
        Err(e) => Err(e),
    }
}

impl<L> TcpListener<L> {
    /// The readiness handle of this listener.
    pub closed spec fn handle(&self) -> GenericEvented<L> {
        self.evented
    }

    #[verifier::type_invariant]
    spec fn listens(&self) -> bool {
        self.evented.spec_interest() == Interest::listener()
    }

    /// Binds a listener to the first candidate address of a resolved endpoint
    /// that takes one: for each candidate in order, `open` opens a listening
    /// socket on it, and the socket is registered with read interest. The
    /// first success is returned and the later candidates are left alone;
    /// where every candidate fails, the error of the last one is returned.
    pub fn bind<A, O, F>(
        reactor: &mut Reactor,
        resolved: Result<Vec<A>, OsError>,
        open: &O,
        attach: &F,
    ) -> (made: Result<TcpListener<L>, Error>) where
        O: Fn(&A) -> Result<L, OsError>,
        F: Fn(&L, Token, Interest) -> Result<(), OsError>,

        requires
            old(reactor).wf(),
            resolved matches Ok(c) ==> forall|j: int|
                0 <= j < c@.len() ==> call_requires(*open, (&#[trigger] c@[j],)),
            forall|e: &L, t: Token| call_requires(*attach, (e, t, Interest::listener())),
        ensures
            final(reactor).wf(),
            final(reactor).limit() == old(reactor).limit(),
            establishes(
                old(reactor)@,
                old(reactor).limit(),
                Interest::listener(),
                open,
                attach,
                resolved,
                listener_handle(made),
            ),
            final(reactor)@ == after_registration(
                old(reactor)@,
                Interest::listener(),
                token_of(listener_handle(made)),
            ),
            made matches Ok(listener) ==> listener.handle().spec_interest() == Interest::listener()
                && listener.handle().registered_in(final(reactor)@),
    {
        match GenericEvented::establish(reactor, resolved, Interest::Readable, open, attach) {
            Ok(evented) => Ok(TcpListener { evented }),
            Err(e) => Err(e),
        }
    }

    /// Makes one non-blocking attempt to accept a connection. A connection
    /// that was accepted is registered with read and write interest and
    /// returned with the address of its peer. "Would block", like every other
    /// answer of the system, is handed to the caller, who suspends and tries
    /// again: nothing is retried here.
    pub fn accept<S, A, C, F>(&self, reactor: &mut Reactor, accept_raw: &C, attach: &F) -> (made:
        Result<(TcpStream<S>, A), Error>) where
        C: Fn(&L) -> Result<(S, A), OsError>,
        F: Fn(&S, Token, Interest) -> Result<(), OsError>,

        requires
            old(reactor).wf(),
            call_requires(*accept_raw, (&self.handle().spec_inner(),)),
            forall|e: &S, t: Token| call_requires(*attach, (e, t, Interest::stream())),
        ensures
            final(reactor).wf(),
            final(reactor).limit() == old(reactor).limit(),
            accepts(
                old(reactor)@,
                old(reactor).limit(),
                &self.handle().spec_inner(),
                accept_raw,
                attach,
                made,
            ),
            final(reactor)@ == after_registration(
                old(reactor)@,
                Interest::stream(),
                token_of(accepted_handle(made)),
            ),
            made matches Ok((stream, _)) ==> stream.handle().spec_interest() == Interest::stream()
                && stream.handle().registered_in(final(reactor)@),
    {
        match accept_raw(self.evented.get_inner()) {
            Ok((raw, peer)) => match make_stream_handle(reactor, raw, attach) {
                Ok(stream) => Ok((stream, peer)),
                Err(e) => Err(e),
            },
            Err(os) => Err(Error::from_os(os)),
        }
    }

    /// Duplicates the listening socket into a listener of its own, with its
    /// own token and the same read interest.
    pub fn try_clone<D, F>(&self, reactor: &mut Reactor, duplicate: &D, attach: &F) -> (made: Result<
        TcpListener<L>,
        Error,
    >) where
        D: Fn(&L) -> Result<L, OsError>,
        F: Fn(&L, Token, Interest) -> Result<(), OsError>,

        requires
            old(reactor).wf(),
            call_requires(*duplicate, (&self.handle().spec_inner(),)),
            forall|e: &L, t: Token| call_requires(*attach, (e, t, Interest::listener())),
        ensures
            final(reactor).wf(),
            final(reactor).limit() == old(reactor).limit(),
            self.handle().spec_interest() == Interest::listener(),
            opens(
                old(reactor)@,
                old(reactor).limit(),
                Interest::listener(),
                duplicate,
                attach,
                &self.handle().spec_inner(),
                listener_handle(made),
            ),
            final(reactor)@ == after_registration(
                old(reactor)@,
                Interest::listener(),
                token_of(listener_handle(made)),
            ),
            made matches Ok(copy) ==> copy.handle().spec_interest() == Interest::listener()
                && copy.handle().registered_in(final(reactor)@) && !old(reactor)@.contains_key(
                copy.handle().spec_token(),
            ),
    {
        proof {
            use_type_invariant(self);
        }
        match self.evented.try_clone(reactor, duplicate, attach) {
            Ok(evented) => Ok(TcpListener { evented }),
            Err(e) => Err(e),
        }
    }

    /// The sequence of the connections that arrive at this listener.
    pub fn incoming(&self) -> (incoming: Incoming<'_, L>)
        ensures
            incoming.listener() == *self,
    {
        Incoming { listener: self }
    }

    /// The readiness handle of this listener.
    pub fn as_evented(&self) -> (evented: &GenericEvented<L>)
        ensures
            *evented == self.handle(),
            evented.spec_interest() == Interest::listener(),
    {
        proof {
            use_type_invariant(self);
        }
        &self.evented
    }

    /// Ends the listener: takes it from the reactor, then closes the socket.
    pub fn close<F>(self, reactor: &mut Reactor, detach: &F) -> (r: Result<(), Error>) where
        F: Fn(&L, Token) -> Result<(), OsError>,

        requires
            old(reactor).wf(),
            call_requires(*detach, (&self.handle().spec_inner(), self.handle().spec_token())),
        ensures
            final(reactor).wf(),
            final(reactor).limit() == old(reactor).limit(),
            deregisters(
                old(reactor)@,
                &self.handle().spec_inner(),
                self.handle().spec_token(),
                detach,
                r,
            ),
            final(reactor)@ == old(reactor)@.remove(self.handle().spec_token()),
    {
        self.evented.close(reactor, detach)
    }
}

impl<'a, L> Incoming<'a, L> {
    /// The listener that this sequence accepts from.
    pub closed spec fn listener(&self) -> TcpListener<L> {
        *self.listener
    }

    /// Pulls the next connection: exactly one `accept` on the listener, whose
    /// result, success or error, is passed on as it is. The sequence never
    /// ends, and pulling leaves it as it was.
    pub fn next<S, A, C, F>(&mut self, reactor: &mut Reactor, accept_raw: &C, attach: &F) -> (pulled:
        Option<Result<(TcpStream<S>, A), Error>>) where
        C: Fn(&L) -> Result<(S, A), OsError>,
        F: Fn(&S, Token, Interest) -> Result<(), OsError>,

        requires
            old(reactor).wf(),
            call_requires(*accept_raw, (&old(self).listener().handle().spec_inner(),)),
            forall|e: &S, t: Token| call_requires(*attach, (e, t, Interest::stream())),
        ensures
            final(reactor).wf(),
            final(reactor).limit() == old(reactor).limit(),
            *final(self) == *old(self),
            pulled.is_some(),
            accepts(
                old(reactor)@,
                old(reactor).limit(),
                &old(self).listener().handle().spec_inner(),
                accept_raw,
                attach,
                pulled.unwrap(),
            ),
            final(reactor)@ == after_registration(
                old(reactor)@,
                Interest::stream(),
                token_of(accepted_handle(pulled.unwrap())),
            ),
            pulled.unwrap() matches Ok((stream, _)) ==> stream.handle().spec_interest()
                == Interest::stream() && stream.handle().registered_in(final(reactor)@),
    {
        Some(self.listener.accept(reactor, accept_raw, attach))
    }
}

impl<S> TcpStream<S> {
    /// The readiness handle of this stream.
    pub closed spec fn handle(&self) -> GenericEvented<S> {
        self.evented
    }

    #[verifier::type_invariant]
    spec fn streams(&self) -> bool {
        self.evented.spec_interest() == Interest::stream()
    }

    /// Connects a stream to the first candidate address of a resolved
    /// endpoint that takes one: for each candidate in order, `open` opens a
    /// socket and starts a non-blocking connect to it, and the socket is
    /// registered with read and write interest. The connect completes later:
    /// the stream turning writable tells the caller that it has.
    pub fn connect<A, O, F>(
        reactor: &mut Reactor,
        resolved: Result<Vec<A>, OsError>,
        open: &O,
        attach: &F,
    ) -> (made: Result<TcpStream<S>, Error>) where
        O: Fn(&A) -> Result<S, OsError>,
        F: Fn(&S, Token, Interest) -> Result<(), OsError>,

        requires
            old(reactor).wf(),
            resolved matches Ok(c) ==> forall|j: int|
                0 <= j < c@.len() ==> call_requires(*open, (&#[trigger] c@[j],)),
            forall|e: &S, t: Token| call_requires(*attach, (e, t, Interest::stream())),
        ensures
            final(reactor).wf(),
            final(reactor).limit() == old(reactor).limit(),
            establishes(
                old(reactor)@,
                old(reactor).limit(),
                Interest::stream(),
                open,
                attach,
                resolved,
                stream_handle(made),
            ),
            final(reactor)@ == after_registration(
                old(reactor)@,
                Interest::stream(),
                token_of(stream_handle(made)),
            ),
            made matches Ok(stream) ==> stream.handle().spec_interest() == Interest::stream()
                && stream.handle().registered_in(final(reactor)@),
    {
        match GenericEvented::establish(reactor, resolved, Interest::Both, open, attach) {
            Ok(evented) => Ok(TcpStream { evented }),
            Err(e) => Err(e),
        }
    }

    /// Duplicates the socket into a stream of its own, with its own token and
    /// the same read and write interest.
    pub fn try_clone<D, F>(&self, reactor: &mut Reactor, duplicate: &D, attach: &F) -> (made: Result<
        TcpStream<S>,
        Error,
    >) where
        D: Fn(&S) -> Result<S, OsError>,
        F: Fn(&S, Token, Interest) -> Result<(), OsError>,

        requires
            old(reactor).wf(),
            call_requires(*duplicate, (&self.handle().spec_inner(),)),
            forall|e: &S, t: Token| call_requires(*attach, (e, t, Interest::stream())),
        ensures
            final(reactor).wf(),
            final(reactor).limit() == old(reactor).limit(),
            self.handle().spec_interest() == Interest::stream(),
            opens(
                old(reactor)@,
                old(reactor).limit(),
                Interest::stream(),
                duplicate,
                attach,
                &self.handle().spec_inner(),
                stream_handle(made),
            ),
            final(reactor)@ == after_registration(
                old(reactor)@,
                Interest::stream(),
                token_of(stream_handle(made)),
            ),
            made matches Ok(copy) ==> copy.handle().spec_interest() == Interest::stream()
                && copy.handle().registered_in(final(reactor)@) && !old(reactor)@.contains_key(
                copy.handle().spec_token(),
            ),
    {
        proof {
            use_type_invariant(self);
        }
        match self.evented.try_clone(reactor, duplicate, attach) {
            Ok(evented) => Ok(TcpStream { evented }),
            Err(e) => Err(e),
        }
    }

    /// The readiness handle of this stream.
    pub fn as_evented(&self) -> (evented: &GenericEvented<S>)
        ensures
            *evented == self.handle(),
            evented.spec_interest() == Interest::stream(),
    {
        proof {
            use_type_invariant(self);
        }
        &self.evented
    }

    /// Ends the stream: takes it from the reactor, then closes the socket.
    pub fn close<F>(self, reactor: &mut Reactor, detach: &F) -> (r: Result<(), Error>) where
        F: Fn(&S, Token) -> Result<(), OsError>,

        requires
            old(reactor).wf(),
            call_requires(*detach, (&self.handle().spec_inner(), self.handle().spec_token())),
        ensures
            final(reactor).wf(),
            final(reactor).limit() == old(reactor).limit(),
            deregisters(
                old(reactor)@,
                &self.handle().spec_inner(),
                self.handle().spec_token(),
                detach,
                r,
            ),
            final(reactor)@ == old(reactor)@.remove(self.handle().spec_token()),
    {
        self.evented.close(reactor, detach)
    }
}

/// A listener is its readiness handle and nothing else.
pub proof fn lemma_listener_is_its_handle<L>(first: TcpListener<L>, second: TcpListener<L>)
    requires
        first.handle() == second.handle(),
    ensures
        first == second,
{
}

/// A stream is its readiness handle and nothing else.
pub proof fn lemma_stream_is_its_handle<S>(first: TcpStream<S>, second: TcpStream<S>)
    requires
        first.handle() == second.handle(),
    ensures
        first == second,
{
}

/// A sequence of incoming connections has no state of its own: two sequences
/// made for one listener are the same value, so neither keeps a cursor that
/// the other could disturb, and each pull is an accept on the listener alone.
pub proof fn lemma_incoming_is_stateless<'a, L>(first: Incoming<'a, L>, second: Incoming<'a, L>)
    requires
        first.listener() == second.listener(),
    ensures
        first == second,
{
}

} // verus!
