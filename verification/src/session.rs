//! The identity bound to a session: how it is read from the session's
//! data, written by login and removed by logout.

use crate::json::{decimal, decode_identity, encode_identity, json_i64};
use crate::store::SessionData;
use std::marker::PhantomData;
use vstd::prelude::*;

verus! {

/// The key of the one session value that holds the identity.
pub const SESSION_KEY: &'static str = "user_auth_session_id";

/// The status flags of a loaded actor record.
pub trait SQLxSessionAuth {
    /// Whether the actor has proved who it is.
    fn is_authenticated(&self) -> bool;

    /// Whether the actor's account is in use.
    fn is_active(&self) -> bool;

    /// Whether the actor stands for nobody in particular.
    fn is_anonymous(&self) -> bool;
}

/// The identity that a request resolves to, before any record is loaded:
/// the one that the session holds under [`SESSION_KEY`], and `anonymous`
/// where there is no session data, no value under the key, or a value
/// that does not read as an identity.
pub open spec fn stored_identity(
    session: Option<Map<Seq<char>, Seq<char>>>,
    anonymous: Option<i64>,
) -> Option<i64> {
    match session {
        Some(values) => if values.contains_key(SESSION_KEY@) {
            identity_or(json_i64(values[SESSION_KEY@]), anonymous)
        } else {
            anonymous
        },
        None => anonymous,
    }
}

/// The identity read, and `anonymous` where none was read.
pub open spec fn identity_or(read: Option<i64>, anonymous: Option<i64>) -> Option<i64> {
    match read {
        Some(id) => Some(id),
        None => anonymous,
    }
}

/// The identity read from the session value, and `anonymous` where none
/// was read.
pub fn identity_or_anonymous(read: Option<i64>, anonymous: Option<i64>) -> (id: Option<i64>)
    ensures
        id == identity_or(read, anonymous),
{
    match read {
        Some(id) => Some(id),
        None => anonymous,
    }
}

/// Whether the session values hold the JSON text of `id` under
/// [`SESSION_KEY`].
pub open spec fn bound_to(values: Map<Seq<char>, Seq<char>>, id: i64) -> bool {
    values.contains_key(SESSION_KEY@) && values[SESSION_KEY@] == decimal(id as int)
}

/// Logging in twice with one identity writes once: what a login leaves is
/// bound to the identity, so that the next login with it finds nothing to
/// write.
pub proof fn lemma_login_binds(values: Map<Seq<char>, Seq<char>>, id: i64)
    ensures
        bound_to(values.insert(SESSION_KEY@, decimal(id as int)), id),
{
}

/// The values of the session data of a request, if it has any.
pub open spec fn session_values(session: Option<&SessionData>) -> Option<Map<Seq<char>, Seq<char>>> {
    match session {
        Some(data) => Some(data@),
        None => None,
    }
}

/// What identity resolution is configured with: the database pool to load
/// records from, if one was set aside for that, and the identity to fall
/// back to.
pub struct SQLxSessionAuthPool<D, P> where D: SQLxSessionAuth {
    /// The pool set aside for loading actor records, if any.
    pub client: Option<P>,
    /// The identity of a request whose session holds none.
    pub anonymous_user_id: Option<i64>,
    /// The actor type that records are loaded as.
    pub phantom: PhantomData<D>,
}

impl<D, P> SQLxSessionAuthPool<D, P> where D: SQLxSessionAuth {
    /// A configuration with this pool and this fallback identity.
    pub fn new(client: Option<P>, anonymous_user_id: Option<i64>) -> (pool: Self)
        ensures
            pool.client == client,
            pool.anonymous_user_id == anonymous_user_id,
    {
        SQLxSessionAuthPool { client, anonymous_user_id, phantom: PhantomData }
    }

    /// The pool to load actor records from: the one set aside for that,
    /// and `fallback` where none was.
    pub fn pool<'a>(&'a self, fallback: &'a P) -> (chosen: &'a P)
        ensures
            *chosen == (match self.client {
                Some(own) => own,
                None => *fallback,
            }),
    {
        match &self.client {
            Some(own) => own,
            None => fallback,
        }
    }
}

/// What registers identity resolution with the host: the same two values
/// as [`SQLxSessionAuthPool`], kept until the host starts.
pub struct SqlxSessionAuthFairing<D, P> where D: SQLxSessionAuth {
    /// The pool set aside for loading actor records, if any.
    pub poll: Option<P>,
    /// The identity of a request whose session holds none.
    pub anonymous_user_id: Option<i64>,
    /// The actor type that records are loaded as.
    pub phantom: PhantomData<D>,
}

impl<D, P> SqlxSessionAuthFairing<D, P> where D: SQLxSessionAuth {
    /// A registration with this pool and this fallback identity.
    pub fn new(poll: Option<P>, anonymous_user_id: Option<i64>) -> (fairing: Self)
        ensures
            fairing.poll == poll,
            fairing.anonymous_user_id == anonymous_user_id,
    {
        SqlxSessionAuthFairing { poll, anonymous_user_id, phantom: PhantomData }
    }

    /// The configuration that the host is given when it starts: the same
    /// fallback identity, and a clone of the pool where there is one.
    pub fn state(&self) -> (pool: SQLxSessionAuthPool<D, P>) where P: Clone
        ensures
            pool.anonymous_user_id == self.anonymous_user_id,
            match (self.poll, pool.client) {
                (Some(own), Some(copy)) => cloned(own, copy),
                (None, None) => true,
                _ => false,
            },
    {
        SQLxSessionAuthPool::new(self.poll.clone(), self.anonymous_user_id)
    }
}

impl<D, P> Default for SqlxSessionAuthFairing<D, P> where D: SQLxSessionAuth {
    /// A registration without a pool of its own and without a fallback
    /// identity.
    fn default() -> (fairing: Self)
        ensures
            fairing.poll is None,
            fairing.anonymous_user_id is None,
    {
        Self::new(None, None)
    }
}

/// The identity of one request: the actor record that was loaded for it, if
/// any, and the identity it was loaded by.
pub struct SQLxAuth<D> where D: SQLxSessionAuth {
    /// The actor of the request, where one was resolved and loaded.
    pub current_user: Option<D>,
    /// The identity that the request resolved to.
    pub current_id: Option<i64>,
}

/// What resolving a request's identity comes to before any record is
/// loaded.
pub enum Resolution<D> where D: SQLxSessionAuth {
    /// The record of this identity is to be loaded, and
    /// [`SQLxAuth::loaded`] called with what loading gave.
    Load(i64),
    /// No identity was resolved: the request has no actor.
    Done(SQLxAuth<D>),
}

impl<D> SQLxAuth<D> where D: SQLxSessionAuth {
    /// The request without an identity and without an actor.
    pub open spec fn absent() -> Self {
        SQLxAuth { current_user: None, current_id: None }
    }

    /// Resolves the identity of a request from its session data, if the
    /// session has any, and the fallback identity.
    pub fn from_session(session: Option<&SessionData>, anonymous_user_id: Option<i64>) -> (resolution:
        Resolution<D>)
        ensures
            resolution == (match stored_identity(session_values(session), anonymous_user_id) {
                Some(id) => Resolution::Load(id),
                None => Resolution::Done(Self::absent()),
            }),
    {
        let current_id = match session {
            Some(data) => match data.get(SESSION_KEY) {
                Some(text) => identity_or_anonymous(
                    decode_identity(text.as_str()),
                    anonymous_user_id,
                ),
                None => anonymous_user_id,
            },
            None => anonymous_user_id,
        };
        match current_id {
            Some(id) => Resolution::Load(id),
            None => Resolution::Done(SQLxAuth { current_user: None, current_id: None }),
        }
    }

    /// The identity of a request that resolved to `id`, given what loading
    /// the record of `id` came to: the record is the actor, and a failure
    /// to load leaves the request without an actor.
    pub fn loaded<E>(id: i64, record: Result<D, E>) -> (auth: Self)
        ensures
            auth.current_id == Some(id),
            auth.current_user == (match record {
                Ok(user) => Some(user),
                Err(_) => None,
            }),
    {
        let current_user = match record {
            Ok(user) => Some(user),
            Err(_) => None,
        };
        SQLxAuth { current_user, current_id: Some(id) }
    }

    /// Whether the actor is authenticated: what the actor says, and false
    /// without an actor.
    pub fn is_authenticated(&self) -> (flag: bool)
        ensures
            match self.current_user {
                Some(user) => call_ensures(D::is_authenticated, (&user,), flag),
                None => !flag,
            },
    {
        match &self.current_user {
            Some(user) => user.is_authenticated(),
            None => false,
        }
    }

    /// Whether the actor is active: what the actor says, and false without
    /// an actor.
    pub fn is_active(&self) -> (flag: bool)
        ensures
            match self.current_user {
                Some(user) => call_ensures(D::is_active, (&user,), flag),
                None => !flag,
            },
    {
        match &self.current_user {
            Some(user) => user.is_active(),
            None => false,
        }
    }

    /// Whether the actor is anonymous: what the actor says, and true
    /// without an actor.
    pub fn is_anonymous(&self) -> (flag: bool)
        ensures
            match self.current_user {
                Some(user) => call_ensures(D::is_anonymous, (&user,), flag),
                None => flag,
            },
    {
        match &self.current_user {
            Some(user) => user.is_anonymous(),
            None => true,
        }
    }

    /// Binds the session to `id`: puts the JSON text of `id` under
    /// [`SESSION_KEY`], unless that very text is there already, and says
    /// whether it wrote. No other value is touched, and a request that
    /// resolves its identity from the data afterwards gets `id`.
    pub fn login_user(&self, data: &mut SessionData, id: i64) -> (wrote: bool)
        ensures
            final(data)@ == old(data)@.insert(SESSION_KEY@, decimal(id as int)),
            wrote == !bound_to(old(data)@, id),
            !wrote ==> *final(data) == *old(data),
            forall|anonymous: Option<i64>| #[trigger]
                stored_identity(Some(final(data)@), anonymous) == Some(id),
    {
        let value = encode_identity(id);
        let same = match data.get(SESSION_KEY) {
            Some(text) => *text == value,
            None => false,
        };
        if same {
            assert(data@ =~= data@.insert(SESSION_KEY@, decimal(id as int)));
            false
        } else {
            data.insert(SESSION_KEY.to_owned(), value);
            true
        }
    }

    /// Unbinds the session: takes away the value under [`SESSION_KEY`], if
    /// there is one, and says whether there was. No other value is
    /// touched, and a request that resolves its identity from the data
    /// afterwards gets the fallback identity.
    pub fn logout_user(&self, data: &mut SessionData) -> (removed: bool)
        ensures
            final(data)@ == old(data)@.remove(SESSION_KEY@),
            removed == old(data)@.contains_key(SESSION_KEY@),
            forall|anonymous: Option<i64>| #[trigger]
                stored_identity(Some(final(data)@), anonymous) == anonymous,
    {
        match data.remove(SESSION_KEY) {
            Some(_) => true,
            None => false,
        }
    }
}

} // verus!
