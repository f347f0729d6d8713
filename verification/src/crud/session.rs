use vstd::prelude::*;
use super::tree::Duplicate;

verus! {

/// Where a browser sends a cookie along.
#[derive(Debug, Clone, Copy, PartialEq, Eq, Structural)]
pub enum SameSite {
    Strict,
    Lax,
    Unrestricted,
}

/// A private cookie of the session: its value and the attributes it is set
/// with.
pub struct SessionCookie {
    pub value: String,
    pub secure: bool,
    pub http_only: bool,
    pub same_site: SameSite,
}

/// The abstract form of `SessionCookie`.
pub struct SessionCookieView {
    pub value: Seq<char>,
    pub secure: bool,
    pub http_only: bool,
    pub same_site: SameSite,
}

impl View for SessionCookie {
    type V = SessionCookieView;

    open spec fn view(&self) -> SessionCookieView {
        SessionCookieView {
            value: self.value@,
            secure: self.secure,
            http_only: self.http_only,
            same_site: self.same_site,
        }
    }
}

impl Duplicate for SessionCookie {
    fn duplicate(&self) -> (r: SessionCookie) {
        SessionCookie {
            value: self.value.clone(),
            secure: self.secure,
            http_only: self.http_only,
            same_site: self.same_site,
        }
    }
}

/// The cookie a session is opened with: the given value, sent over secure
/// connections only, hidden from scripts, and withheld from cross-site
/// requests other than top-level navigation.
pub open spec fn private_cookie(value: Seq<char>) -> SessionCookieView {
    SessionCookieView { value, secure: true, http_only: true, same_site: SameSite::Lax }
}

/// A cookie as a request carries it back: its value, with no attributes.
pub open spec fn received_cookie(value: Seq<char>) -> SessionCookieView {
    SessionCookieView { value, secure: false, http_only: false, same_site: SameSite::Unrestricted }
}

impl SessionCookie {
    /// The cookie a session is opened with.
    pub fn private(value: String) -> (c: SessionCookie)
        ensures
            c@ == private_cookie(value@),
    {
        SessionCookie { value, secure: true, http_only: true, same_site: SameSite::Lax }
    }

    /// A cookie as a request carries it back.
    pub fn received(value: String) -> (c: SessionCookie)
        ensures
            c@ == received_cookie(value@),
    {
        SessionCookie { value, secure: false, http_only: false, same_site: SameSite::Unrestricted }
    }
}

} // verus!
