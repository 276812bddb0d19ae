//! Sessions: who may ask for what.
//!
//! A session is the URL-safe base64 form of the credentials. A request is
//! judged by its path and by the cookie that it carries.
use crate::text::{chars_of, has_prefix, range_is, same_text};
use base64::Engine;
use vstd::prelude::*;
use vstd::string::*;

verus! {

/// The name of the cookie that carries the session.
pub const SESSION_ID_KEY: &'static str = "Session_id";

/// The credentials that open a session.
#[derive(Debug, Clone, Default)]
pub struct Login {
    pub username: String,
    pub password: String,
}

/// The verdict on a request.
#[derive(Debug, Clone, Copy, PartialEq, Eq)]
pub enum PermissionResult {
    Denied,
    AuthenticationNeeded,
    Allowed,
}

/// The URL-safe base64 form, with padding, of the UTF-8 bytes of a text, as
/// the `base64` crate computes it.
pub uninterp spec fn url_safe_base64(text: Seq<char>) -> Seq<char>;

/// Whether the base64 form of a text has a length that a machine can count.
pub open spec fn fits_base64(text: Seq<char>) -> bool {
    vstd::utf8::encode_utf8(text).len() / 3 * 4 + 4 <= usize::MAX
}

/// `Engine::encode` of `base64`, on the engine `URL_SAFE`: the URL-safe
/// base64 form of the bytes of `text`. The call panics where the length of
/// that form overflows, which the precondition rules out.
#[verifier::external_body]
fn encode_url_safe(text: &str) -> (encoded: String)
    requires
        fits_base64(text@),
    ensures
        encoded@ == url_safe_base64(text@),
{
    base64::engine::general_purpose::URL_SAFE.encode(text)
}

/// The text that a login is encoded from.
pub open spec fn credentials(username: Seq<char>, password: Seq<char>) -> Seq<char> {
    "username="@ + username + "&password="@ + password
}

/// Whether a path is open to everybody.
pub open spec fn allowed(path: Seq<char>) -> bool {
    path == "/favicon.ico"@ || path == "/login.html"@ || path == "/dologin"@
        || "/.well-known"@.is_prefix_of(path)
}

/// The verdict on a request for `path` that carries a cookie with this base64
/// form, or none, where `session` is the session in force.
pub open spec fn permission(
    path: Seq<char>,
    encoded_cookie: Option<Seq<char>>,
    session: Seq<char>,
) -> PermissionResult {
    if allowed(path) {
        PermissionResult::Allowed
    } else {
        match encoded_cookie {
            Some(cookie) => if cookie == session {
                PermissionResult::Allowed
            } else {
                PermissionResult::AuthenticationNeeded
            },
            None => if path == "/"@ {
                PermissionResult::AuthenticationNeeded
            } else {
                PermissionResult::Denied
            },
        }
    }
}

/// The position of the first `c` in `s`, if `c` occurs at all.
pub open spec fn first_index_of(s: Seq<char>, c: char) -> Option<int>
    decreases s.len(),
{
    if s.len() == 0 {
        None
    } else if s[0] == c {
        Some(0)
    } else {
        match first_index_of(s.skip(1), c) {
            Some(i) => Some(i + 1),
            None => None,
        }
    }
}

/// The value of the first cookie named `Session_id` in a cookie header. The
/// cookies are parted by `;`, and the name of a cookie ends at its first `=`.
/// Nothing is trimmed.
pub open spec fn session_value(cookies: Seq<char>) -> Option<Seq<char>>
    decreases cookies.len(),
{
    let end = match first_index_of(cookies, ';') {
        Some(i) => i,
        None => cookies.len() as int,
    };
    let piece = cookies.take(end);
    let named = match first_index_of(piece, '=') {
        Some(i) => piece.take(i) == "Session_id"@,
        None => false,
    };
    if named {
        Some(piece.skip(first_index_of(piece, '=').unwrap() + 1))
    } else if 0 <= end < cookies.len() {
        session_value(cookies.skip(end + 1))
    } else {
        None
    }
}

/// `first_index_of` finds an occurrence with no other before it, or none
/// where there is none.
pub proof fn lemma_first_index_of(s: Seq<char>, c: char)
    ensures
        match first_index_of(s, c) {
            Some(i) => 0 <= i < s.len() && s[i] == c && forall|j: int| 0 <= j < i ==> s[j] != c,
            None => forall|j: int| 0 <= j < s.len() ==> s[j] != c,
        },
    decreases s.len(),
{
    if s.len() > 0 && s[0] != c {
        let t = s.skip(1);
        lemma_first_index_of(t, c);
        match first_index_of(t, c) {
            Some(i) => {
                assert(t[i] == s[i + 1]);
                assert forall|j: int| 0 <= j < i + 1 implies s[j] != c by {
                    if j > 0 {
                        assert(t[j - 1] == s[j]);
                    }
                }
            },
            None => {
                assert forall|j: int| 0 <= j < s.len() implies s[j] != c by {
                    if j > 0 {
                        assert(t[j - 1] == s[j]);
                    }
                }
            },
        }
    }
}

/// The first `c` among the characters from `from` up to `to`, or `to` where
/// there is none.
fn find_first(text: &Vec<char>, from: usize, to: usize, c: char) -> (at: usize)
    requires
        from <= to <= text@.len(),
    ensures
        from <= at <= to,
        first_index_of(text@.subrange(from as int, to as int), c) == (if at < to {
            Some(at - from)
        } else {
            None
        }),
{
    let ghost range = text@.subrange(from as int, to as int);
    let mut at = from;
    while at < to
        invariant
            from <= at <= to <= text@.len(),
            range == text@.subrange(from as int, to as int),
            forall|j: int| from <= j < at ==> text@[j] != c,
        decreases to - at,
    {
        if text[at] == c {
            proof {
                lemma_first_index_of(range, c);
                match first_index_of(range, c) {
                    Some(i) => {
                        assert(range[i] == text@[from + i]);
                        assert(range[at - from] == c);
                    },
                    None => {
                        assert(range[at - from] == c);
                    },
                }
            }
            return at;
        }
        at += 1;
    }
    proof {
        lemma_first_index_of(range, c);
        if let Some(i) = first_index_of(range, c) {
            assert(range[i] == text@[from + i]);
        }
    }
    at
}

/// Whether `path` is open to everybody: the login pages, the icon, and what
/// lies under `/.well-known`.
pub fn allow_list(path: &str) -> (open: bool)
    ensures
        open == allowed(path@),
{
    same_text(path, "/favicon.ico") || same_text(path, "/login.html") || same_text(path, "/dologin")
        || has_prefix(path, "/.well-known")
}

/// Keeps the session that a login opens and judges requests by it.
#[derive(Debug, Clone)]
pub struct SessionMananger {
    encoded: String,
}

impl SessionMananger {
    /// The session in force.
    pub closed spec fn session(&self) -> Seq<char> {
        self.encoded@
    }

    /// The manager of the session that `login` opens.
    pub fn new(login: &Login) -> (manager: SessionMananger)
        requires
            fits_base64(credentials(login.username@, login.password@)),
        ensures
            manager.session() == url_safe_base64(credentials(login.username@, login.password@)),
    {
        let mut session_id = String::from_str("username=");
        session_id.append(login.username.as_str());
        session_id.append("&password=");
        session_id.append(login.password.as_str());
        SessionMananger { encoded: encode_url_safe(session_id.as_str()) }
    }

    /// The session in force, in its base64 form.
    pub fn session_text(&self) -> (encoded: String)
        ensures
            encoded@ == self.session(),
    {
        self.encoded.clone()
    }

    /// The manager of a session that is already in its base64 form.
    pub fn with_session(encoded: String) -> (manager: SessionMananger)
        ensures
            manager.session() == encoded@,
    {
        SessionMananger { encoded }
    }

    /// Checks if a request is allowed to be handled: whether the cookie of
    /// the request holds the credentials of the session. Open paths are
    /// always allowed.
    pub fn has_permission(&self, path: &str, cookie: Option<&str>) -> (verdict: PermissionResult)
        requires
            cookie matches Some(c) ==> fits_base64(c@),
        ensures
            verdict == permission(
                path@,
                match cookie {
                    Some(c) => Some(url_safe_base64(c@)),
                    None => None,
                },
                self.session(),
            ),
    {
        match cookie {
            Some(c) => {
                let encoded = encode_url_safe(c);
                self.permission_for(path, Some(encoded.as_str()))
            },
            None => self.permission_for(path, None),
        }
    }

    /// The verdict on a request whose cookie has the base64 form
    /// `encoded_cookie`. An open path is allowed whatever the cookie. Any
    /// other path is allowed with the cookie of the session; with another
    /// cookie the client has to authenticate; without one it is denied,
    /// except at `/`, where it is sent to authenticate.
    pub fn permission_for(&self, path: &str, encoded_cookie: Option<&str>) -> (verdict:
        PermissionResult)
        ensures
            verdict == permission(
                path@,
                match encoded_cookie {
                    Some(c) => Some(c@),
                    None => None,
                },
                self.session(),
            ),
    {
        if allow_list(path) {
            return PermissionResult::Allowed;
        }
        match encoded_cookie {
            Some(cookie) => {
                if same_text(cookie, self.encoded.as_str()) {
                    PermissionResult::Allowed
                } else {
                    PermissionResult::AuthenticationNeeded
                }
            },
            None => {
                if same_text(path, "/") {
                    PermissionResult::AuthenticationNeeded
                } else {
                    PermissionResult::Denied
                }
            },
        }
    }

    /// Validates that the cookies of a request hold the session: whether the
    /// first cookie named `Session_id` has the session as its value.
    pub fn cookie_contains_valid_session(&self, cookies: &str) -> (valid: bool)
        ensures
            valid == (session_value(cookies@) == Some(self.session())),
    {
        let text = chars_of(cookies);
        let key = chars_of(SESSION_ID_KEY);
        let session = chars_of(self.encoded.as_str());
        let n = text.len();
        let mut start: usize = 0;
        proof {
            assert(cookies@.skip(0) =~= cookies@);
        }
        while start < n
            invariant
                start <= n,
                n == text@.len(),
                text@ == cookies@,
                key@ == "Session_id"@,
                session@ == self.session(),
                session_value(cookies@) == session_value(cookies@.skip(start as int)),
            decreases n - start,
        {
            let end = find_first(&text, start, n, ';');
            let eq = find_first(&text, start, end, '=');
            let ghost rest = cookies@.skip(start as int);
            let ghost piece = rest.take(end - start);
            proof {
                assert(rest =~= text@.subrange(start as int, n as int));
                assert(piece =~= text@.subrange(start as int, end as int));
                if eq < end {
                    assert(piece.take(eq - start) =~= text@.subrange(start as int, eq as int));
                    assert(piece.skip(eq - start + 1) =~= text@.subrange(eq + 1, end as int));
                }
                if end < n {
                    assert(rest.skip(end - start + 1) =~= cookies@.skip(end + 1));
                }
            }
            if eq < end && range_is(&text, start, eq, &key) {
                return range_is(&text, eq + 1, end, &session);
            }
            if end == n {
                return false;
            }
            start = end + 1;
        }
        proof {
            assert(cookies@.skip(start as int) =~= Seq::<char>::empty());
        }
        false
    }

    /// Opens the session for a client that sends the right credentials: the
    /// session, where `data` encodes to it, and `None` otherwise.
    pub fn create_session(&self, data: &str) -> (session: Option<String>)
        requires
            fits_base64(data@),
        ensures
            match session {
                Some(s) => s@ == self.session() && url_safe_base64(data@) == self.session(),
                None => url_safe_base64(data@) != self.session(),
            },
    {
        let encoded = encode_url_safe(data);
        self.session_if_valid(encoded)
    }

    /// Hands `encoded` back where it is the session in force.
    pub fn session_if_valid(&self, encoded: String) -> (session: Option<String>)
        ensures
            match session {
                Some(s) => s@ == self.session() && encoded@ == self.session(),
                None => encoded@ != self.session(),
            },
    {
        if same_text(encoded.as_str(), self.encoded.as_str()) {
            Some(encoded)
        } else {
            None
        }
    }
}

} // verus!
