//! The session service: turns a successful ceremony into a signed
//! cookie, and an incoming cookie back into an authenticated identity.
//!
//! A session is derived fresh from the request's cookie on every call;
//! nothing is cached server-side. A missing or unacceptable token is an
//! unauthenticated session, never an error.

use vstd::prelude::*;

use crate::claims::{Claims, Scope, ServiceView, wf_scope};
use crate::cookie::{build_set_cookie, set_cookie_chars};
use crate::errors::TokenError;
use crate::token::{token_chars, validate_spec};
use crate::user::UserRecord;

verus! {

/// How long a session lives, in seconds: thirty days, used for both the
/// cookie's max age and the claim expiry.
pub const SESSION_LENGTH_SECONDS: u64 = 30 * 24 * 60 * 60;

/// The per-request authentication state: the claim set of the bearer,
/// if the request carried an acceptable token.
#[derive(Debug)]
pub struct Session {
    /// The validated claims, or nothing for an unauthenticated request.
    pub claims: Option<Claims>,
}

impl Session {
    /// Whether this session may act in the given scope; an
    /// unauthenticated session may act in none.
    pub fn has_scope(&self, scope: &Scope) -> (r: bool)
        ensures
            r == match self.claims {
                Some(c) => c@.scopes.contains(scope@),
                None => false,
            },
    {
        let Some(c) = &self.claims else {
            return false;
        };
        let mut found = false;
        let mut k: usize = 0;
        while k < c.scopes.len()
            invariant
                k <= c.scopes@.len(),
                found == exists|x: int| 0 <= x < k && c.scopes.deep_view()[x] == scope@,
            decreases c.scopes@.len() - k,
        {
            let hit = crate::claims::scope_eq(&c.scopes[k], scope);
            proof {
                assert(c.scopes.deep_view()[k as int] == c.scopes@[k as int]@);
            }
            found = found || hit;
            k = k + 1;
        }
        proof {
            if found {
                let x = choose|x: int|
                    0 <= x < c.scopes@.len() && c.scopes.deep_view()[x] == scope@;
                assert(c@.scopes[x] == scope@);
            } else {
                if c@.scopes.contains(scope@) {
                    let x = choose|x: int| 0 <= x < c@.scopes.len() && c@.scopes[x] == scope@;
                    assert(c.scopes.deep_view()[x] == scope@);
                }
            }
        }
        found
    }

    /// The bearer's user id, if authenticated.
    pub fn uuid(&self) -> (r: Option<u128>)
        ensures
            r == match self.claims {
                Some(c) => Some(c.sub),
                None => None::<u128>,
            },
    {
        match &self.claims {
            Some(c) => Some(c.sub),
            None => None,
        }
    }

    /// Whether the request carried an acceptable token.
    pub fn is_logged_in(&self) -> (r: bool)
        ensures
            r == (self.claims is Some),
    {
        self.claims.is_some()
    }

    /// Signs the user in: mints a claim set expiring a session length
    /// from `now`, stores it in this session, and yields the
    /// `Set-Cookie` value that carries the encoded token to the client.
    pub fn login(
        &mut self,
        user: &UserRecord,
        scopes: Vec<Scope>,
        now: u64,
        key: &Vec<u8>,
        secure: bool,
    ) -> (r: String)
        requires
            now + SESSION_LENGTH_SECONDS <= u64::MAX,
            forall|i: int|
                0 <= i < scopes@.len() ==> wf_scope(#[trigger] scopes.deep_view()[i]),
        ensures
            final(self).claims matches Some(c) && {
                &&& c@.sub == user.id
                &&& c@.iat == now
                &&& c@.exp == now + SESSION_LENGTH_SECONDS
                &&& c@.iss == ServiceView::StarHavenPlatform
                &&& c@.aud == seq![ServiceView::StarHavenPlatform, ServiceView::StarHavenSccache]
                &&& c@.scopes == scopes.deep_view()
                &&& c@.wf()
                &&& r@ == set_cookie_chars(
                    "session"@,
                    token_chars(c@, key@),
                    SESSION_LENGTH_SECONDS as nat,
                    secure,
                )
            },
    {
        let claims = Claims::new(user.id, scopes, SESSION_LENGTH_SECONDS, now);
        let token = claims.encode(key);
        let cookie = build_set_cookie("session", token.as_str(), SESSION_LENGTH_SECONDS, secure);
        self.claims = Some(claims);
        cookie
    }

    /// Signs the bearer out: clears the claims and yields a `Set-Cookie`
    /// value that overwrites the cookie with an empty, immediately
    /// expiring one.
    pub fn logout(&mut self, secure: bool) -> (r: String)
        ensures
            final(self).claims is None,
            r@ == set_cookie_chars("session"@, ""@, 0, secure),
    {
        self.claims = None;
        build_set_cookie("session", "", 0, secure)
    }
}

/// The session a request's cookie value denotes: the validated claims
/// if the token is acceptable at `now`, and an unauthenticated session
/// — never an error — otherwise or when no cookie came.
pub fn session(cookie_value: Option<&String>, key: &Vec<u8>, now: u64) -> (r: Session)
    ensures
        match cookie_value {
            None => r.claims is None,
            Some(t) => match validate_spec(t@, key@, now) {
                Some(cv) => r.claims matches Some(c) && c@ == cv,
                None => r.claims is None,
            },
        },
{
    let Some(t) = cookie_value else {
        return Session { claims: None };
    };
    match Claims::validate(t.as_str(), key, now) {
        Ok(c) => Session { claims: Some(c) },
        Err(_) => Session { claims: None },
    }
}

} // verus!
