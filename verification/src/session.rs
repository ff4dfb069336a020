//! Per-connection identity, and the authorization check every operation runs:
//! unauthenticated sessions are rejected before any permission is consulted.
use vstd::prelude::*;
use crate::error::Error;
use crate::permissioner::{Permissioner, spec_can_poll, spec_can_send};

verus! {

/// The authenticated identity attached to one connection.
pub struct Session {
    pub user_id: u32,
    pub client_id: u32,
    pub authenticated: bool,
}

/// What a logout asks the surrounding server to do: end the given user's
/// session on the given client.
pub struct LogoutAction {
    pub user_id: u32,
    pub client_id: u32,
}

impl Session {
    /// A session for an already-authenticated user on a known client.
    pub fn new(user_id: u32, client_id: u32) -> (r: Session)
        ensures
            r.user_id == user_id,
            r.client_id == client_id,
            r.authenticated == true,
    {
        Session { user_id, client_id, authenticated: true }
    }

    /// A session carrying only an identity, for transports that
    /// authenticate out of band (such as a bearer token per request).
    pub fn stateless(user_id: u32) -> (r: Session)
        ensures
            r.user_id == user_id,
            r.client_id == 0,
            r.authenticated == true,
    {
        Session { user_id, client_id: 0, authenticated: true }
    }

    /// Whether the session may invoke anything beyond ping and login.
    pub fn is_authenticated(&self) -> (r: bool)
        ensures
            r == self.authenticated,
    {
        self.authenticated
    }

    /// Drop the identity: the session is anonymous afterwards.
    pub fn clear_user_id(&mut self)
        ensures
            final(self).user_id == 0,
            final(self).authenticated == false,
            final(self).client_id == old(self).client_id,
    {
        self.user_id = 0;
        self.authenticated = false;
    }
}

/// Decide a logout request without touching the session: an
/// unauthenticated session is refused; an authenticated one yields the
/// action telling the server which user and client to log out. The caller
/// clears the session with `clear_user_id` only once the server has carried
/// the action out, so a failed logout leaves the session authenticated.
pub fn logout_decision(session: &Session) -> (r: Result<LogoutAction, Error>)
    ensures
        match r {
            Ok(a) => {
                &&& session.authenticated
                &&& a.user_id == session.user_id
                &&& a.client_id == session.client_id
            },
            Err(e) => {
                &&& !session.authenticated
                &&& e == Error::Unauthenticated
            },
        },
{
    if !session.is_authenticated() {
        return Err(Error::Unauthenticated);
    }
    Ok(LogoutAction { user_id: session.user_id, client_id: session.client_id })
}

/// Authorize a send: `Unauthenticated` for an anonymous session, `Unauthorized`
/// when the permissioner denies the stream, `Ok` exactly otherwise.
pub fn authorize_send(perm: &Permissioner, session: &Session, stream_id: u32) -> (r: Result<
    (),
    Error,
>)
    ensures
        match r {
            Ok(()) => session.authenticated && spec_can_send(
                perm.pview(),
                session.user_id,
                stream_id,
            ),
            Err(e) => {
                &&& (e == Error::Unauthenticated || e == Error::Unauthorized)
                &&& (e == Error::Unauthenticated) == !session.authenticated
                &&& (e == Error::Unauthorized) == (session.authenticated && !spec_can_send(
                    perm.pview(),
                    session.user_id,
                    stream_id,
                ))
            },
        },
{
    if !session.is_authenticated() {
        return Err(Error::Unauthenticated);
    }
    if !perm.can_send_messages(session.user_id, stream_id) {
        return Err(Error::Unauthorized);
    }
    Ok(())
}

/// Authorize a poll, as `authorize_send` authorizes a send.
pub fn authorize_poll(perm: &Permissioner, session: &Session, stream_id: u32) -> (r: Result<
    (),
    Error,
>)
    ensures
        match r {
            Ok(()) => session.authenticated && spec_can_poll(
                perm.pview(),
                session.user_id,
                stream_id,
            ),
            Err(e) => {
                &&& (e == Error::Unauthenticated || e == Error::Unauthorized)
                &&& (e == Error::Unauthenticated) == !session.authenticated
                &&& (e == Error::Unauthorized) == (session.authenticated && !spec_can_poll(
                    perm.pview(),
                    session.user_id,
                    stream_id,
                ))
            },
        },
{
    if !session.is_authenticated() {
        return Err(Error::Unauthenticated);
    }
    if !perm.can_poll_messages(session.user_id, stream_id) {
        return Err(Error::Unauthorized);
    }
    Ok(())
}

} // verus!
