//! The readiness handle: a socket together with its registration.

use vstd::prelude::*;
use crate::error::{Error, OsError};
use crate::interest::{Interest, Token};
use crate::addr::{each_addr, is_run, is_run_by, lemma_run_by, verdict};
use crate::reactor::{after_registration, deregisters, is_lowest_free, registers, Reactor};

verus! {

/// A non-blocking socket that is registered with the reactor. The handle owns
/// the socket, and keeps the token it was registered under and the interest it
/// declared. Both are fixed when the handle is made: a different interest takes
/// a new handle. A value of this type exists from the moment its registration
/// succeeded until [`GenericEvented::close`] consumes it, so a socket that is
/// not registered, or no longer, cannot be used through it.
pub struct GenericEvented<E> {
    inner: E,
    token: Token,
    interest: Interest,
}

/// The token of a handle that was made, or the error where none was.
pub open spec fn token_of<E>(made: Result<GenericEvented<E>, Error>) -> Result<Token, Error> {
    match made {
        Ok(handle) => Ok(handle.spec_token()),
        Err(e) => Err(e),
    }
}

/// `open` may be called on `address`.
pub open spec fn can_open<A, E, O: Fn(&A) -> Result<E, OsError>>(open: &O, address: &A) -> bool {
    call_requires(*open, (address,))
}

/// `made` is a possible result of opening a socket for `address` and
/// registering it with `interest` while the register holds `live`: a failure
/// to open is surfaced as the system gave it, and a socket that was opened is
/// registered as [`registers`] says.
pub open spec fn opens<
    A,
    E,
    O: Fn(&A) -> Result<E, OsError>,
    F: Fn(&E, Token, Interest) -> Result<(), OsError>,
>(
    live: Map<Token, Interest>,
    limit: nat,
    interest: Interest,
    open: &O,
    attach: &F,
    address: &A,
    made: Result<GenericEvented<E>, Error>,
) -> bool {
    exists|opened: Result<E, OsError>| #[trigger]
        call_ensures(*open, (address,), opened) && match opened {
            Err(os) => made == Err::<GenericEvented<E>, Error>(Error::of_os(os)),
            Ok(socket) => {
                &&& registers(live, limit, &socket, interest, attach, token_of(made))
                &&& made matches Ok(handle) ==> handle.spec_inner() == socket
                    && handle.spec_interest() == interest
            },
        }
}

/// `made` is a possible result of establishing a handle for a resolved
/// endpoint: a failed resolution is a resolution error; otherwise the
/// candidates are tried in order as [`is_run_by`] says, each as [`opens`]
/// says, and the last answer is returned.
pub open spec fn establishes<
    A,
    E,
    O: Fn(&A) -> Result<E, OsError>,
    F: Fn(&E, Token, Interest) -> Result<(), OsError>,
>(
    live: Map<Token, Interest>,
    limit: nat,
    interest: Interest,
    open: &O,
    attach: &F,
    resolved: Result<Vec<A>, OsError>,
    made: Result<GenericEvented<E>, Error>,
) -> bool {
    match resolved {
        Err(os) => made == Err::<GenericEvented<E>, Error>(Error::of_resolver(os)),
        Ok(candidates) => exists|outcomes: Seq<Result<GenericEvented<E>, Error>>|
            is_run_by(
                |a: A, r: Result<GenericEvented<E>, Error>|
                    opens(live, limit, interest, open, attach, &a, r),
                candidates@,
                outcomes,
            ) && made == #[trigger] verdict(outcomes),
    }
}

impl<E> GenericEvented<E> {
    /// The socket that the handle owns.
    pub closed spec fn spec_inner(&self) -> E {
        self.inner
    }

    /// The token that the handle is registered under.
    pub closed spec fn spec_token(&self) -> Token {
        self.token
    }

    /// The interest that the handle was registered with.
    pub closed spec fn spec_interest(&self) -> Interest {
        self.interest
    }

    /// The handle is registered in `live` under its token, with its interest.
    pub open spec fn registered_in(&self, live: Map<Token, Interest>) -> bool {
        live.contains_pair(self.spec_token(), self.spec_interest())
    }

    /// Registers `inner` with the reactor under a newly minted token and wraps
    /// it. Where the registration fails, `inner` is dropped, which closes it:
    /// the socket does not outlive the failed call.
    pub fn new<F>(reactor: &mut Reactor, inner: E, interest: Interest, attach: &F) -> (made: Result<
        Self,
        Error,
    >) where F: Fn(&E, Token, Interest) -> Result<(), OsError>
        requires
            old(reactor).wf(),
            forall|t: Token| call_requires(*attach, (&inner, t, interest)),
        ensures
            final(reactor).wf(),
            final(reactor).limit() == old(reactor).limit(),
            registers(old(reactor)@, old(reactor).limit(), &inner, interest, attach, token_of(made)),
            final(reactor)@ == after_registration(old(reactor)@, interest, token_of(made)),
            made matches Ok(handle) ==> handle.spec_inner() == inner && handle.spec_interest()
                == interest && handle.registered_in(final(reactor)@),
    {
        match reactor.register(&inner, interest, attach) {
            Ok(token) => Ok(GenericEvented { inner, token, interest }),
            Err(e) => Err(e),
        }
    }

    /// The socket, for issuing system calls on it. Ownership stays here.
    pub fn get_inner(&self) -> (inner: &E)
        ensures
            *inner == self.spec_inner(),
    {
        &self.inner
    }

    /// The token that the reactor knows this handle by.
    #[verifier::when_used_as_spec(spec_token)]
    pub fn token(&self) -> (token: Token)
        ensures
            token == self.spec_token(),
    {
        self.token
    }

    /// The interest that this handle was registered with.
    #[verifier::when_used_as_spec(spec_interest)]
    pub fn interest(&self) -> (interest: Interest)
        ensures
            interest == self.spec_interest(),
    {
        self.interest
    }

    /// Opens a socket for `address` and offers it to the system's poller
    /// under the token that is free next. The registration is not recorded:
    /// that is left to the caller, who does it for the handle it keeps.
    fn attempt<A, O, F>(
        reactor: &Reactor,
        interest: Interest,
        open: &O,
        attach: &F,
        address: &A,
    ) -> (made: Result<Self, Error>) where
        O: Fn(&A) -> Result<E, OsError>,
        F: Fn(&E, Token, Interest) -> Result<(), OsError>,

        requires
            reactor.wf(),
            call_requires(*open, (address,)),
            forall|e: &E, t: Token| call_requires(*attach, (e, t, interest)),
        ensures
            opens(reactor@, reactor.limit(), interest, open, attach, address, made),
            made matches Ok(handle) ==> handle.spec_interest() == interest && is_lowest_free(
                reactor@,
                reactor.limit(),
                handle.spec_token(),
            ),
    {
        match open(address) {
            Ok(inner) => match reactor.offer(&inner, interest, attach) {
                Ok(token) => Ok(GenericEvented { inner, token, interest }),
                Err(e) => Err(e),
            },
            Err(os) => Err(Error::from_os(os)),
        }
    }

    /// Establishes a handle for a resolved endpoint: for each candidate
    /// address in order, opens a socket with `open` and registers it with
    /// `interest`, and returns the first handle that was made. Where every
    /// candidate fails, the error of the last one is returned; a socket that
    /// was opened and could not be registered is dropped, which closes it.
    pub fn establish<A, O, F>(
        reactor: &mut Reactor,
        resolved: Result<Vec<A>, OsError>,
        interest: Interest,
        open: &O,
        attach: &F,
    ) -> (made: Result<Self, Error>) where
        O: Fn(&A) -> Result<E, OsError>,
        F: Fn(&E, Token, Interest) -> Result<(), OsError>,

        requires
            old(reactor).wf(),
            resolved matches Ok(c) ==> forall|j: int|
                0 <= j < c@.len() ==> call_requires(*open, (&#[trigger] c@[j],)),
            forall|e: &E, t: Token| call_requires(*attach, (e, t, interest)),
        ensures
            final(reactor).wf(),
            final(reactor).limit() == old(reactor).limit(),
            establishes(
                old(reactor)@,
                old(reactor).limit(),
                interest,
                open,
                attach,
                resolved,
                made,
            ),
            final(reactor)@ == after_registration(old(reactor)@, interest, token_of(made)),
            made matches Ok(handle) ==> handle.spec_interest() == interest
                && handle.registered_in(final(reactor)@),
    {
        let watched: &Reactor = &*reactor;
        let ghost live = watched@;
        let ghost limit = watched.limit();
        let ghost step = |a: A, r: Result<GenericEvented<E>, Error>|
            opens(live, limit, interest, open, attach, &a, r);
        let candidate = |address: &A| -> (one: Result<GenericEvented<E>, Error>)
            requires
                can_open(open, address),
            ensures
                opens(watched@, watched.limit(), interest, open, attach, address, one),
                one matches Ok(handle) ==> handle.spec_interest() == interest && is_lowest_free(
                    watched@,
                    watched.limit(),
                    handle.spec_token(),
                ),
            { GenericEvented::attempt(watched, interest, open, attach, address) };
        let ghost given = resolved;
        let ghost asked = candidate;
        let made = each_addr(resolved, candidate);
        proof {
            if let Ok(c) = given {
                let outcomes = choose|outcomes: Seq<Result<GenericEvented<E>, Error>>| #[trigger]
                    is_run(asked, c@, outcomes) && made == verdict(outcomes);
                lemma_run_by(asked, step, c@, outcomes);
            }
        }
        if let Ok(handle) = &made {
            reactor.occupy(handle.token, handle.interest);
        }
        made
    }

    /// Duplicates the socket and registers the copy, with the same interest,
    /// as a handle of its own: it gets its own token, and this handle's
    /// registration is left as it is.
    pub fn try_clone<D, F>(&self, reactor: &mut Reactor, duplicate: &D, attach: &F) -> (made: Result<
        Self,
        Error,
    >) where
        D: Fn(&E) -> Result<E, OsError>,
        F: Fn(&E, Token, Interest) -> Result<(), OsError>,

        requires
            old(reactor).wf(),
            call_requires(*duplicate, (&self.spec_inner(),)),
            forall|e: &E, t: Token| call_requires(*attach, (e, t, self.spec_interest())),
        ensures
            final(reactor).wf(),
            final(reactor).limit() == old(reactor).limit(),
            opens(
                old(reactor)@,
                old(reactor).limit(),
                self.spec_interest(),
                duplicate,
                attach,
                &self.spec_inner(),
                made,
            ),
            final(reactor)@ == after_registration(
                old(reactor)@,
                self.spec_interest(),
                token_of(made),
            ),
            made matches Ok(handle) ==> handle.spec_interest() == self.spec_interest()
                && handle.registered_in(final(reactor)@) && !old(reactor)@.contains_key(
                handle.spec_token(),
            ),
    {
        let made = GenericEvented::attempt(&*reactor, self.interest, duplicate, attach, &self.inner);
        if let Ok(handle) = &made {
            reactor.occupy(handle.token, handle.interest);
        }
        made
    }

    /// Ends the handle: takes it from the reactor first, and closes the socket
    /// after, by dropping it. The token is free again afterwards, whatever the
    /// system's poller answered.
    pub fn close<F>(self, reactor: &mut Reactor, detach: &F) -> (r: Result<(), Error>) where
        F: Fn(&E, Token) -> Result<(), OsError>,

        requires
            old(reactor).wf(),
            call_requires(*detach, (&self.spec_inner(), self.spec_token())),
        ensures
            final(reactor).wf(),
            final(reactor).limit() == old(reactor).limit(),
            deregisters(old(reactor)@, &self.spec_inner(), self.spec_token(), detach, r),
            final(reactor)@ == old(reactor)@.remove(self.spec_token()),
    {
        reactor.deregister(&self.inner, self.token, detach)
    }
}

/// A handle is its socket, its token and its interest, and nothing else: two
/// handles that agree on the three are the same handle.
pub proof fn lemma_handle_is_its_parts<E>(first: GenericEvented<E>, second: GenericEvented<E>)
    requires
        first.spec_inner() == second.spec_inner(),
        first.spec_token() == second.spec_token(),
        first.spec_interest() == second.spec_interest(),
    ensures
        first == second,
{
}

/// A handle and its clone are independent. The clone is registered under a
/// token of its own, both are registered side by side, and closing either one
/// leaves the other registered as it was.
pub proof fn lemma_clone_is_independent<E>(
    live: Map<Token, Interest>,
    handle: GenericEvented<E>,
    copy: GenericEvented<E>,
)
    requires
        handle.registered_in(live),
        !live.contains_key(copy.spec_token()),
    ensures
        copy.spec_token() != handle.spec_token(),
        handle.registered_in(live.insert(copy.spec_token(), copy.spec_interest())),
        copy.registered_in(live.insert(copy.spec_token(), copy.spec_interest())),
        handle.registered_in(
            live.insert(copy.spec_token(), copy.spec_interest()).remove(copy.spec_token()),
        ),
        copy.registered_in(
            live.insert(copy.spec_token(), copy.spec_interest()).remove(handle.spec_token()),
        ),
{
}

} // verus!
