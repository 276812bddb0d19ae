//! The guard in front of the services: what happens to a request before any
//! service sees it.
use crate::session_manager::{
    fits_base64, permission, url_safe_base64, PermissionResult, SessionMananger,
};
use vstd::prelude::*;

verus! {

/// What the guard does with a request.
#[derive(Debug, Clone, Copy, PartialEq, Eq)]
pub enum Verdict {
    /// The request goes on to the service.
    Forward,
    /// The client is sent to `/login.html`.
    RedirectToLogin,
    /// The request is refused.
    Forbidden,
}

/// What the guard does with a request on which the session manager has given
/// its verdict.
pub open spec fn verdict_of(permission: PermissionResult) -> Verdict {
    match permission {
        PermissionResult::Allowed => Verdict::Forward,
        PermissionResult::AuthenticationNeeded => Verdict::RedirectToLogin,
        PermissionResult::Denied => Verdict::Forbidden,
    }
}

/// Builds the guard of a service: with a session manager the guard asks it,
/// without one it lets everything through.
#[derive(Debug, Clone)]
pub struct RonaldoAuthentication {
    session_mananger: Option<SessionMananger>,
}

impl RonaldoAuthentication {
    /// The session manager that the guards will ask.
    pub closed spec fn manager(&self) -> Option<SessionMananger> {
        self.session_mananger
    }

    pub fn new(session_mananger: Option<SessionMananger>) -> (authentication:
        RonaldoAuthentication)
        ensures
            authentication.manager() == session_mananger,
    {
        Self { session_mananger }
    }

    /// The guard in front of `service`.
    pub fn new_transform<S>(&self, service: S) -> (guard: AuthenticationService<S>)
        ensures
            guard.inner() == service,
            guard.manager() matches Some(m) ==> self.manager() matches Some(own) && m.session()
                == own.session(),
            guard.manager().is_none() ==> self.manager().is_none(),
    {
        let session_mananger = match &self.session_mananger {
            Some(manager) => Some(SessionMananger::with_session(manager.session_text())),
            None => None,
        };
        AuthenticationService { service, session_mananger }
    }
}

/// The guard in front of a service.
#[derive(Debug, Clone)]
pub struct AuthenticationService<S> {
    service: S,
    session_mananger: Option<SessionMananger>,
}

impl<S> AuthenticationService<S> {
    /// The service behind the guard.
    pub closed spec fn inner(&self) -> S {
        self.service
    }

    /// The session manager that the guard asks.
    pub closed spec fn manager(&self) -> Option<SessionMananger> {
        self.session_mananger
    }

    /// The service behind the guard.
    pub fn service(&self) -> (service: &S)
        ensures
            *service == self.inner(),
    {
        &self.service
    }

    /// Decides what happens to a request for `path` that carries `cookie`.
    /// Without a session manager every request goes on. With one, its
    /// verdict decides: an allowed request goes on, a client that has to
    /// authenticate is sent to the login page, and a denied request is
    /// refused.
    pub fn call(&self, path: &str, cookie: Option<&str>) -> (verdict: Verdict)
        requires
            cookie matches Some(c) ==> fits_base64(c@),
        ensures
            verdict == (match self.manager() {
                Some(m) => verdict_of(
                    permission(
                        path@,
                        match cookie {
                            Some(c) => Some(url_safe_base64(c@)),
                            None => None,
                        },
                        m.session(),
                    ),
                ),
                None => Verdict::Forward,
            }),
    {
        // if no session manager is defined, just pass through the request
        let authenticator = match &self.session_mananger {
            Some(authenticator) => authenticator,
            None => return Verdict::Forward,
        };
        Self::decide(authenticator.has_permission(path, cookie))
    }

    /// What the guard does on a verdict of the session manager.
    pub fn decide(permission: PermissionResult) -> (verdict: Verdict)
        ensures
            verdict == verdict_of(permission),
    {
        match permission {
            PermissionResult::Allowed => Verdict::Forward,
            PermissionResult::AuthenticationNeeded => Verdict::RedirectToLogin,
            PermissionResult::Denied => Verdict::Forbidden,
        }
    }
}

} // verus!
