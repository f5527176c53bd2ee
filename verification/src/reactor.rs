//! The reactor's register of live handles.

use vstd::prelude::*;
use crate::error::{Error, OsError, RegistrationFault};
use crate::interest::{Interest, Token};

verus! {

/// The register of the handles that the reactor currently watches: which
/// tokens are in use, and the interest each was registered with. A token is
/// minted when a handle is registered and returns to the pool when the handle
/// is removed, so no two live handles ever hold the same one.
pub struct Reactor {
    slots: Vec<Option<Interest>>,
    capacity: usize,
}

/// `t` is the lowest token below `limit` that `live` does not hold.
pub open spec fn is_lowest_free(live: Map<Token, Interest>, limit: nat, t: Token) -> bool {
    &&& t.0 < limit
    &&& !live.contains_key(t)
    &&& forall|u: Token| u.0 < t.0 ==> #[trigger] live.contains_key(u)
}

/// Every token below `limit` is in use.
pub open spec fn is_full(live: Map<Token, Interest>, limit: nat) -> bool {
    forall|u: Token| u.0 < limit ==> #[trigger] live.contains_key(u)
}

/// The result of a registration: `vacant` is the token that was free, if any,
/// and `attached` is what the system's poller answered for it.
pub open spec fn registration(vacant: Option<Token>, attached: Result<(), OsError>) -> Result<
    Token,
    Error,
> {
    match vacant {
        None => Err(Error::Registration(RegistrationFault::Full)),
        Some(t) => match attached {
            Ok(_) => Ok(t),
            Err(os) => Err(Error::of_poller(os)),
        },
    }
}

/// The register after a registration that ended in `r`.
pub open spec fn after_registration(
    live: Map<Token, Interest>,
    interest: Interest,
    r: Result<Token, Error>,
) -> Map<Token, Interest> {
    match r {
        Ok(t) => live.insert(t, interest),
        Err(_) => live,
    }
}

/// `r` is a possible result of registering `handle` with `interest` while the
/// register holds `live`: the lowest free token is offered to `attach`, and the
/// registration succeeds with that token exactly if there is one and `attach`
/// accepts it.
pub open spec fn registers<E, F: Fn(&E, Token, Interest) -> Result<(), OsError>>(
    live: Map<Token, Interest>,
    limit: nat,
    handle: &E,
    interest: Interest,
    attach: &F,
    r: Result<Token, Error>,
) -> bool {
    if is_full(live, limit) {
        r == registration(None, Ok(()))
    } else {
        exists|t: Token, attached: Result<(), OsError>|
            is_lowest_free(live, limit, t) && #[trigger] call_ensures(
                *attach,
                (handle, t, interest),
                attached,
            ) && r == registration(Some(t), attached)
    }
}

/// The result of removing a handle: `detached` is what the system's poller
/// answered where the token was registered.
pub open spec fn deregistration(was_registered: bool, detached: Result<(), OsError>) -> Result<
    (),
    Error,
> {
    if !was_registered {
        Err(Error::Registration(RegistrationFault::NotRegistered))
    } else {
        match detached {
            Ok(_) => Ok(()),
            Err(os) => Err(Error::of_poller(os)),
        }
    }
}

/// `r` is a possible result of removing `handle`, registered under `token`,
/// while the register holds `live`: `detach` is asked exactly if the token is
/// registered.
pub open spec fn deregisters<E, F: Fn(&E, Token) -> Result<(), OsError>>(
    live: Map<Token, Interest>,
    handle: &E,
    token: Token,
    detach: &F,
    r: Result<(), Error>,
) -> bool {
    if live.contains_key(token) {
        exists|detached: Result<(), OsError>| #[trigger]
            call_ensures(*detach, (handle, token), detached) && r == deregistration(
                true,
                detached,
            )
    } else {
        r == deregistration(false, Ok(()))
    }
}

/// The tokens in use among the first `k` slots.
spec fn tokens_below(slots: Seq<Option<Interest>>, k: int) -> Set<Token> {
    Set::new(|t: Token| t.0 < k && t.0 < slots.len() && slots[t.0 as int].is_some())
}

proof fn lemma_tokens_below_step(slots: Seq<Option<Interest>>, k: int)
    requires
        0 <= k < slots.len(),
        k <= usize::MAX,
        tokens_below(slots, k).finite(),
        tokens_below(slots, k).len() <= k,
    ensures
        tokens_below(slots, k + 1).finite(),
        tokens_below(slots, k + 1).len() == tokens_below(slots, k).len() + (if slots[k].is_some() {
            1nat
        } else {
            0nat
        }),
{
    let t = Token(k as usize);
    if slots[k].is_some() {
        assert(tokens_below(slots, k + 1) =~= tokens_below(slots, k).insert(t));
    } else {
        assert(tokens_below(slots, k + 1) =~= tokens_below(slots, k));
    }
}

/// One change of the register: a handle was registered, or one was removed.
pub enum Change {
    Registered(Token, Interest),
    Deregistered(Token),
}

/// `change` can happen to `live`: only a free token is minted, and only a
/// registered one is removed. A registration or a removal that fails is no
/// change.
pub open spec fn admits(live: Map<Token, Interest>, change: Change) -> bool {
    match change {
        Change::Registered(t, _) => !live.contains_key(t),
        Change::Deregistered(t) => live.contains_key(t),
    }
}

/// The register after `change`.
pub open spec fn apply(live: Map<Token, Interest>, change: Change) -> Map<Token, Interest> {
    match change {
        Change::Registered(t, interest) => live.insert(t, interest),
        Change::Deregistered(t) => live.remove(t),
    }
}

/// The register after the changes of `history`, in order.
pub open spec fn replay(live: Map<Token, Interest>, history: Seq<Change>) -> Map<Token, Interest>
    decreases history.len(),
{
    if history.len() == 0 {
        live
    } else {
        apply(replay(live, history.drop_last()), history.last())
    }
}

/// Each change of `history` can happen to the register that the changes
/// before it have left.
pub open spec fn admits_all(live: Map<Token, Interest>, history: Seq<Change>) -> bool
    decreases history.len(),
{
    history.len() > 0 ==> admits_all(live, history.drop_last()) && admits(
        replay(live, history.drop_last()),
        history.last(),
    )
}

/// The number of registrations in `history`.
pub open spec fn registrations_in(history: Seq<Change>) -> nat
    decreases history.len(),
{
    if history.len() == 0 {
        0
    } else {
        registrations_in(history.drop_last()) + (if history.last() is Registered {
            1nat
        } else {
            0nat
        })
    }
}

/// The number of removals in `history`.
pub open spec fn deregistrations_in(history: Seq<Change>) -> nat
    decreases history.len(),
{
    if history.len() == 0 {
        0
    } else {
        deregistrations_in(history.drop_last()) + (if history.last() is Deregistered {
            1nat
        } else {
            0nat
        })
    }
}

/// The lowest free token is determined by the register: a registration has
/// no choice of token.
pub proof fn lemma_lowest_free_is_unique(
    live: Map<Token, Interest>,
    limit: nat,
    a: Token,
    b: Token,
)
    requires
        is_lowest_free(live, limit, a),
        is_lowest_free(live, limit, b),
    ensures
        a == b,
{
    if a.0 < b.0 {
        assert(live.contains_key(a));
    }
    if b.0 < a.0 {
        assert(live.contains_key(b));
    }
}

proof fn lemma_lowest_free_from(live: Map<Token, Interest>, limit: nat, k: nat) -> (t: Token)
    requires
        k <= limit,
        limit <= usize::MAX + 1,
        forall|u: Token| u.0 < k ==> #[trigger] live.contains_key(u),
        !is_full(live, limit),
    ensures
        is_lowest_free(live, limit, t),
    decreases limit - k,
{
    if k == limit {
        assert(is_full(live, limit));
        Token(0)
    } else if !live.contains_key(Token(k as usize)) {
        Token(k as usize)
    } else {
        assert forall|u: Token| u.0 < k + 1 implies #[trigger] live.contains_key(u) by {
            if u.0 == k {
                assert(u == Token(k as usize));
            }
        }
        lemma_lowest_free_from(live, limit, k + 1)
    }
}

/// A register that is not full has a lowest free token: a registration fails
/// for want of a token only where every token is in use.
pub proof fn lemma_lowest_free_exists(live: Map<Token, Interest>, limit: nat)
    requires
        !is_full(live, limit),
        limit <= usize::MAX + 1,
    ensures
        exists|t: Token| is_lowest_free(live, limit, t),
{
    let t = lemma_lowest_free_from(live, limit, 0);
    assert(is_lowest_free(live, limit, t));
}

/// A registration that succeeds adds exactly its token, with its interest,
/// and one that fails changes nothing; every other registration stays as it
/// was.
pub proof fn lemma_registration_adds_one(
    live: Map<Token, Interest>,
    limit: nat,
    interest: Interest,
    r: Result<Token, Error>,
)
    requires
        live.dom().finite(),
        r matches Ok(t) ==> is_lowest_free(live, limit, t),
    ensures
        after_registration(live, interest, r).dom().finite(),
        after_registration(live, interest, r).dom().len() == live.dom().len() + (if r.is_ok() {
            1nat
        } else {
            0nat
        }),
        r matches Ok(t) ==> after_registration(live, interest, r).contains_pair(t, interest),
        forall|u: Token| #[trigger]
            live.contains_key(u) ==> after_registration(live, interest, r).contains_pair(
                u,
                live[u],
            ),
{
}

/// Removing a registered token takes exactly that token away, and removing
/// one that is not registered changes nothing; every other registration stays
/// as it was.
pub proof fn lemma_deregistration_removes_one(live: Map<Token, Interest>, token: Token)
    requires
        live.dom().finite(),
    ensures
        live.remove(token).dom().finite(),
        live.remove(token).dom().len() + (if live.contains_key(token) {
            1nat
        } else {
            0nat
        }) == live.dom().len(),
        !live.remove(token).contains_key(token),
        forall|u: Token| #[trigger]
            live.contains_key(u) && u != token ==> live.remove(token).contains_pair(u, live[u]),
{
}

/// Registering a handle and then removing it leaves the register as it was
/// before: nothing of the handle stays behind.
pub proof fn lemma_register_then_deregister_restores(
    live: Map<Token, Interest>,
    token: Token,
    interest: Interest,
)
    requires
        !live.contains_key(token),
    ensures
        live.insert(token, interest).remove(token) == live,
{
    assert(live.insert(token, interest).remove(token) =~= live);
}

/// Registrations and removals balance: after any history of changes, the
/// number of live handles is the number there was, plus the registrations,
/// minus the removals. So a register that started empty is empty again
/// exactly when every registration has had its removal.
pub proof fn lemma_changes_balance(live: Map<Token, Interest>, history: Seq<Change>)
    requires
        live.dom().finite(),
        admits_all(live, history),
    ensures
        replay(live, history).dom().finite(),
        replay(live, history).dom().len() + deregistrations_in(history) == live.dom().len()
            + registrations_in(history),
        live.dom().len() == 0 ==> (replay(live, history) == Map::<Token, Interest>::empty()
            <==> registrations_in(history) == deregistrations_in(history)),
    decreases history.len(),
{
    if history.len() > 0 {
        lemma_changes_balance(live, history.drop_last());
    }
    let end = replay(live, history);
    if end.dom().len() == 0 {
        assert(end =~= Map::<Token, Interest>::empty());
    }
}

proof fn lemma_tokens_below_bounded(slots: Seq<Option<Interest>>, k: int)
    requires
        0 <= k <= slots.len(),
        slots.len() <= usize::MAX,
    ensures
        tokens_below(slots, k).finite(),
        tokens_below(slots, k).len() <= k,
    decreases k,
{
    if k == 0 {
        assert(tokens_below(slots, 0) =~= Set::<Token>::empty());
    } else {
        lemma_tokens_below_bounded(slots, k - 1);
        lemma_tokens_below_step(slots, k - 1);
    }
}

impl View for Reactor {
    type V = Map<Token, Interest>;

    /// The live registrations: each token in use, with its interest.
    closed spec fn view(&self) -> Map<Token, Interest> {
        Map::new(
            |t: Token| t.0 < self.slots@.len() && self.slots@[t.0 as int].is_some(),
            |t: Token| self.slots@[t.0 as int].unwrap(),
        )
    }
}

impl Reactor {
    /// The number of handles that can be registered at one time.
    pub closed spec fn limit(&self) -> nat {
        self.capacity as nat
    }

    /// The register is consistent: it holds no token at or above its limit.
    pub closed spec fn wf(&self) -> bool {
        self.slots@.len() <= self.capacity
    }

    /// A consistent register holds finitely many tokens, all below its limit,
    /// and so never more of them than its limit.
    pub proof fn lemma_live_tokens_are_below_limit(&self)
        requires
            self.wf(),
        ensures
            self@.dom().finite(),
            self@.dom().len() <= self.limit(),
            forall|t: Token| #[trigger] self@.contains_key(t) ==> t.0 < self.limit(),
    {
        lemma_tokens_below_bounded(self.slots@, self.slots@.len() as int);
        assert(tokens_below(self.slots@, self.slots@.len() as int) =~= self@.dom());
    }

    /// A reactor that watches nothing yet and takes up to `capacity` handles.
    pub fn new(capacity: usize) -> (r: Reactor)
        ensures
            r@ == Map::<Token, Interest>::empty(),
            r.limit() == capacity,
            r.wf(),
    {
        let r = Reactor { slots: Vec::new(), capacity };
        assert(r@ =~= Map::<Token, Interest>::empty());
        r
    }

    pub fn capacity(&self) -> (n: usize)
        ensures
            n == self.limit(),
    {
        self.capacity
    }

    /// Whether a handle is registered under `token`.
    pub fn is_registered(&self, token: Token) -> (b: bool)
        ensures
            b == self@.contains_key(token),
    {
        token.0 < self.slots.len() && self.slots[token.0].is_some()
    }

    /// The interest that `token` was registered with.
    pub fn interest_of(&self, token: Token) -> (i: Option<Interest>)
        ensures
            i == (if self@.contains_key(token) {
                Some(self@[token])
            } else {
                None
            }),
    {
        if token.0 < self.slots.len() {
            self.slots[token.0]
        } else {
            None
        }
    }

    /// The number of handles that are registered now.
    pub fn registered_count(&self) -> (n: usize)
        requires
            self.wf(),
        ensures
            self@.dom().finite(),
            n == self@.dom().len(),
            n <= self.limit(),
    {
        let mut n: usize = 0;
        let mut i: usize = 0;
        assert(tokens_below(self.slots@, 0) =~= Set::<Token>::empty());
        while i < self.slots.len()
            invariant
                i <= self.slots@.len(),
                n <= i,
                tokens_below(self.slots@, i as int).finite(),
                tokens_below(self.slots@, i as int).len() == n,
            decreases self.slots.len() - i,
        {
            proof {
                lemma_tokens_below_step(self.slots@, i as int);
            }
            if self.slots[i].is_some() {
                n = n + 1;
            }
            i = i + 1;
        }
        assert(tokens_below(self.slots@, i as int) =~= self@.dom());
        n
    }

    /// The token that the next registration will mint: the lowest one that no
    /// live handle holds, or none where the reactor is full.
    pub fn vacant(&self) -> (v: Option<Token>)
        requires
            self.wf(),
        ensures
            match v {
                Some(t) => is_lowest_free(self@, self.limit(), t),
                None => is_full(self@, self.limit()),
            },
    {
        let mut i: usize = 0;
        while i < self.slots.len()
            invariant
                self.wf(),
                i <= self.slots@.len(),
                forall|u: Token| u.0 < i ==> #[trigger] self@.contains_key(u),
            decreases self.slots.len() - i,
        {
            if self.slots[i].is_none() {
                return Some(Token(i));
            }
            i = i + 1;
        }
        if i < self.capacity {
            Some(Token(i))
        } else {
            None
        }
    }
    /// Records `token`, the lowest free one, as in use with `interest`.
    pub(crate) fn occupy(&mut self, token: Token, interest: Interest)
        requires
            old(self).wf(),
            is_lowest_free(old(self)@, old(self).limit(), token),
        ensures
            final(self).wf(),
            final(self)@ == old(self)@.insert(token, interest),
            final(self).limit() == old(self).limit(),
    {
        let ghost before = self@;
        if token.0 < self.slots.len() {
            self.slots.set(token.0, Some(interest));
        } else {
            assert(token.0 == self.slots@.len()) by {
                if token.0 > self.slots@.len() {
                    assert(before.contains_key(Token(self.slots@.len() as usize)));
                }
            }
            self.slots.push(Some(interest));
        }
        assert(self@ =~= before.insert(token, interest));
    }

    /// Offers `handle` to the system's poller under the token that is free
    /// next, and records nothing.
    pub(crate) fn offer<E, F>(&self, handle: &E, interest: Interest, attach: &F) -> (r: Result<
        Token,
        Error,
    >) where F: Fn(&E, Token, Interest) -> Result<(), OsError>
        requires
            self.wf(),
            forall|t: Token| call_requires(*attach, (handle, t, interest)),
        ensures
            registers(self@, self.limit(), handle, interest, attach, r),
            r matches Ok(t) ==> is_lowest_free(self@, self.limit(), t),
    {
        let token = match self.vacant() {
            Some(t) => t,
            None => {
                return Err(Error::Registration(RegistrationFault::Full));
            },
        };
        assert(!is_full(self@, self.limit())) by {
            assert(!self@.contains_key(token));
        }
        match attach(handle, token, interest) {
            Ok(()) => Ok(token),
            Err(os) => Err(Error::Registration(RegistrationFault::Refused(os))),
        }
    }

    /// Registers `handle` with `interest`: mints the lowest free token, has
    /// `attach` hand the handle to the system's poller under it, and records
    /// the registration once the poller has taken it. Where the reactor is
    /// full, or the poller refuses, nothing is recorded.
    pub fn register<E, F>(&mut self, handle: &E, interest: Interest, attach: &F) -> (r: Result<
        Token,
        Error,
    >) where F: Fn(&E, Token, Interest) -> Result<(), OsError>
        requires
            old(self).wf(),
            forall|t: Token| call_requires(*attach, (handle, t, interest)),
        ensures
            final(self).wf(),
            final(self).limit() == old(self).limit(),
            registers(old(self)@, old(self).limit(), handle, interest, attach, r),
            r matches Ok(t) ==> is_lowest_free(old(self)@, old(self).limit(), t),
            final(self)@ == after_registration(old(self)@, interest, r),
    {
        let r = self.offer(handle, interest, attach);
        if let Ok(token) = r {
            self.occupy(token, interest);
        }
        r
    }

    /// Removes the registration of `handle` under `token`: has `detach` take
    /// the handle from the system's poller, and frees the token whatever the
    /// poller answers. A token that is not registered is reported, and
    /// `detach` is not called.
    pub fn deregister<E, F>(&mut self, handle: &E, token: Token, detach: &F) -> (r: Result<
        (),
        Error,
    >) where F: Fn(&E, Token) -> Result<(), OsError>
        requires
            old(self).wf(),
            call_requires(*detach, (handle, token)),
        ensures
            final(self).wf(),
            deregisters(old(self)@, handle, token, detach, r),
            final(self)@ == old(self)@.remove(token),
            final(self).limit() == old(self).limit(),
    {
        let ghost before = self@;
        if !self.is_registered(token) {
            assert(before.remove(token) =~= before);
            return Err(Error::Registration(RegistrationFault::NotRegistered));
        }
        let detached = detach(handle, token);
        self.slots.set(token.0, None);
        assert(self@ =~= before.remove(token));
        match detached {
            Ok(()) => Ok(()),
            Err(os) => Err(Error::Registration(RegistrationFault::Refused(os))),
        }
    }
}

} // verus!
