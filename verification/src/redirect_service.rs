//! Sends plain HTTP requests over to HTTPS.
use crate::text::same_text;
use vstd::prelude::*;
use vstd::string::*;

verus! {

/// Where a request is sent instead of being served, if anywhere: a request
/// over plain HTTP goes to the same host and URI over HTTPS while the
/// redirection is enabled.
pub open spec fn redirection(
    enabled: bool,
    scheme: Seq<char>,
    host: Seq<char>,
    uri: Seq<char>,
) -> Option<Seq<char>> {
    if enabled && scheme == "http"@ {
        Some("https://"@ + host + uri)
    } else {
        None
    }
}

/// Builds the redirection in front of a service.
#[derive(Debug, Clone, Copy)]
pub struct RedirectScheme {
    enabled: bool,
}

impl RedirectScheme {
    /// Whether requests are redirected at all.
    pub closed spec fn enabled(&self) -> bool {
        self.enabled
    }

    pub fn new(enabled: bool) -> (scheme: RedirectScheme)
        ensures
            scheme.enabled() == enabled,
    {
        Self { enabled }
    }

    /// The redirection in front of `service`.
    pub fn new_transform<S>(&self, service: S) -> (redirect: RedirectService<S>)
        ensures
            redirect.inner() == service,
            redirect.enabled() == self.enabled(),
    {
        RedirectService { service, enabled: self.enabled }
    }
}

/// The redirection in front of a service.
#[derive(Debug, Clone)]
pub struct RedirectService<S> {
    service: S,
    enabled: bool,
}

impl<S> RedirectService<S> {
    /// The service behind the redirection.
    pub closed spec fn inner(&self) -> S {
        self.service
    }

    /// Whether requests are redirected at all.
    pub closed spec fn enabled(&self) -> bool {
        self.enabled
    }

    /// The service behind the redirection.
    pub fn service(&self) -> (service: &S)
        ensures
            *service == self.inner(),
    {
        &self.service
    }

    /// Decides whether a request is sent elsewhere: the URL to move to, or
    /// `None` where the request goes on to the service.
    pub fn call(&self, scheme: &str, host: &str, uri: &str) -> (location: Option<String>)
        ensures
            match location {
                Some(url) => redirection(self.enabled(), scheme@, host@, uri@) == Some(url@),
                None => redirection(self.enabled(), scheme@, host@, uri@).is_none(),
            },
    {
        if self.enabled && same_text(scheme, "http") {
            let mut url = String::from_str("https://");
            url.append(host);
            url.append(uri);
            return Some(url);
        }
        None
    }
}

} // verus!
