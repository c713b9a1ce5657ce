//! Request interception: for every inbound request, either the path is on
//! the public allow-list, or a bearer token must prove identity — and, for
//! the administrative scope, the administrator role.

use vstd::prelude::*;
use vstd::utf8::encode_utf8;
use crate::claims::{claims_wf, Claims, Role};
use crate::strutil::str_eq;
use crate::token::{verify_model, JwtService};

verus! {

/// Why the interceptor rejects a request. Every rejection is surfaced as HTTP 401
/// with a fixed message; the downstream handler never runs.
#[derive(Clone, Copy, Debug, PartialEq, Eq, Structural)]
pub enum AuthError {
    MissingToken,
    InvalidToken,
    MissingHeader,
    MalformedHeader,
    MalformedScheme,
    InsufficientRole,
}

impl AuthError {
    /// The HTTP status every interceptor rejection carries.
    pub fn status(&self) -> (r: u16)
        ensures
            r == 401,
    {
        401
    }

    /// The reason, in the words the response body shows.
    pub fn message(&self) -> (r: String)
        ensures
            self is MissingToken ==> r@ == "No authorization token provided"@,
            self is InvalidToken ==> r@ == "Invalid or expired token"@,
            self is MissingHeader ==> r@ == "No authorization header"@,
            self is MalformedHeader ==> r@ == "Invalid authorization header"@,
            self is MalformedScheme ==> r@ == "Invalid authorization format"@,
            self is InsufficientRole ==> r@ == "Insufficient permissions"@,
    {
        match self {
            AuthError::MissingToken => "No authorization token provided".to_owned(),
            AuthError::InvalidToken => "Invalid or expired token".to_owned(),
            AuthError::MissingHeader => "No authorization header".to_owned(),
            AuthError::MalformedHeader => "Invalid authorization header".to_owned(),
            AuthError::MalformedScheme => "Invalid authorization format".to_owned(),
            AuthError::InsufficientRole => "Insufficient permissions".to_owned(),
        }
    }
}

/// The interceptor's outcome for one request: continue, with the verified claims
/// attached when a token proved identity, or a rejection.
pub enum AuthDecision {
    Continue(Option<Claims>),
    Reject(AuthError),
}

/// The fixed allow-list: the only paths reachable without a token, matched
/// on the exact string.
pub open spec fn is_public_path(p: Seq<char>) -> bool {
    ||| p == "/api/users/login"@
    ||| p == "/api/users/register"@
    ||| p == "/api/users/verify-email"@
    ||| p == "/api/users/resend-verification"@
}

/// What stands after `Bearer ` in a header, when that is how it starts.
pub open spec fn bearer_token_of(h: Seq<char>) -> Option<Seq<char>> {
    if h.len() >= 7 && h.subrange(0, 7) == "Bearer "@ {
        Some(h.skip(7))
    } else {
        None
    }
}

/// Decides whether a path is on the public allow-list.
pub fn path_is_public(path: &str) -> (r: bool)
    ensures
        r == is_public_path(path@),
{
    str_eq(path, "/api/users/login") || str_eq(path, "/api/users/register") || str_eq(
        path, "/api/users/verify-email") || str_eq(path, "/api/users/resend-verification")
}

/// Takes the token text out of a bearer header.
fn extract_bearer<'a>(header: &'a str) -> (r: Option<&'a str>)
    ensures
        match r {
            Some(t) => bearer_token_of(header@) == Some(t@),
            None => bearer_token_of(header@) is None,
        },
{
    proof {
        reveal_strlit("Bearer ");
    }
    let n = header.unicode_len();
    if n < 7 {
        return None;
    }
    if header.get_char(0) == 'B' && header.get_char(1) == 'e' && header.get_char(2) == 'a'
        && header.get_char(3) == 'r' && header.get_char(4) == 'e' && header.get_char(5) == 'r'
        && header.get_char(6) == ' ' {
        proof {
            reveal_strlit("Bearer ");
            assert("Bearer "@ =~= seq!['B', 'e', 'a', 'r', 'e', 'r', ' ']);
            assert(header@.subrange(0, 7) =~= seq!['B', 'e', 'a', 'r', 'e', 'r', ' ']);
        }
        Some(header.substring_char(7, n))
    } else {
        proof {
            reveal_strlit("Bearer ");
            if header@.len() >= 7 && header@.subrange(0, 7) == "Bearer "@ {
                assert("Bearer "@ =~= seq!['B', 'e', 'a', 'r', 'e', 'r', ' ']);
                assert(header@[0] == header@.subrange(0, 7)[0]);
                assert(header@[1] == header@.subrange(0, 7)[1]);
                assert(header@[2] == header@.subrange(0, 7)[2]);
                assert(header@[3] == header@.subrange(0, 7)[3]);
                assert(header@[4] == header@.subrange(0, 7)[4]);
                assert(header@[5] == header@.subrange(0, 7)[5]);
                assert(header@[6] == header@.subrange(0, 7)[6]);
                assert(false);
            }
        }
        None
    }
}

/// The public-scope gate, before it is bound to a key.
pub struct Authentication {}

impl Authentication {
    pub fn new() -> (r: Authentication)
        ensures
            true,
    {
        Authentication {}
    }

    /// Binds the interceptor to the token service it verifies with.
    pub fn middleware(self, jwt: JwtService) -> (r: AuthenticationMiddleware)
        ensures
            r.key() == jwt.key(),
    {
        AuthenticationMiddleware::new(jwt)
    }
}

/// The per-request gate for the user-facing scope: public paths pass as
/// they are; everything else needs a bearer token that verifies.
pub struct AuthenticationMiddleware {
    jwt: JwtService,
}

impl AuthenticationMiddleware {
    /// The key requests are verified against.
    pub closed spec fn key(self) -> Seq<u8> {
        self.jwt.key()
    }

    pub fn new(jwt: JwtService) -> (r: AuthenticationMiddleware)
        ensures
            r.key() == jwt.key(),
    {
        AuthenticationMiddleware { jwt }
    }

    /// The interceptor's decision for one request at one moment. Public paths skip
    /// the whole check; elsewhere a missing or empty token rejects, and an
    /// offered token decides by verification alone.
    pub fn decide(&self, path: &str, auth_header: Option<&str>, now: i64) -> (r: AuthDecision)
        ensures
            is_public_path(path@) ==> (r matches AuthDecision::Continue(c) && c is None),
            !is_public_path(path@) ==> match auth_header {
                None => r == AuthDecision::Reject(AuthError::MissingToken),
                Some(h) => match bearer_token_of(h@) {
                    None => r == AuthDecision::Reject(AuthError::MissingToken),
                    Some(t) => {
                        if t.len() == 0 {
                            r == AuthDecision::Reject(AuthError::MissingToken)
                        } else {
                            match verify_model(self.key(), encode_utf8(t), now as int) {
                                Ok(c) => r matches AuthDecision::Continue(Some(cl))
                                    && cl.model() == c,
                                Err(_) => r == AuthDecision::Reject(AuthError::InvalidToken),
                            }
                        }
                    },
                },
            },
    {
        if path_is_public(path) {
            return AuthDecision::Continue(None);
        }
        match auth_header {
            None => AuthDecision::Reject(AuthError::MissingToken),
            Some(h) => match extract_bearer(h) {
                None => AuthDecision::Reject(AuthError::MissingToken),
                Some(tok) => {
                    if tok.is_empty() {
                        AuthDecision::Reject(AuthError::MissingToken)
                    } else {
                        match self.jwt.verify_token_at(tok, now) {
                            Ok(cl) => AuthDecision::Continue(Some(cl)),
                            Err(_) => AuthDecision::Reject(AuthError::InvalidToken),
                        }
                    }
                }
            },
        }
    }

    /// The interceptor as the request pipeline calls it, at the moment the clock
    /// reads now.
    pub fn call(&self, path: &str, auth_header: Option<&str>) -> (r: AuthDecision)
        ensures
            is_public_path(path@) ==> (r matches AuthDecision::Continue(c) && c is None),
            (!is_public_path(path@) && auth_header is None) ==> r == AuthDecision::Reject(
                AuthError::MissingToken),
    {
        let now = crate::token::now_ts();
        self.decide(path, auth_header, now)
    }
}

/// The administrative gate, before it is bound to a key.
pub struct AdminAuthentication {}

impl AdminAuthentication {
    pub fn new() -> (r: AdminAuthentication)
        ensures
            true,
    {
        AdminAuthentication {}
    }

    /// Binds the interceptor to the token service it verifies with.
    pub fn middleware(self, jwt: JwtService) -> (r: AdminAuthenticationMiddleware)
        ensures
            r.key() == jwt.key(),
    {
        AdminAuthenticationMiddleware::new(jwt)
    }
}

/// The per-request gate for the administrative scope: no allow-list; a
/// bearer token must verify and carry the administrator role.
pub struct AdminAuthenticationMiddleware {
    jwt: JwtService,
}

impl AdminAuthenticationMiddleware {
    /// The key requests are verified against.
    pub closed spec fn key(self) -> Seq<u8> {
        self.jwt.key()
    }

    pub fn new(jwt: JwtService) -> (r: AdminAuthenticationMiddleware)
        ensures
            r.key() == jwt.key(),
    {
        AdminAuthenticationMiddleware { jwt }
    }

    /// The interceptor's decision for one request at one moment. `header_text` is
    /// the header decoded as text, absent when the header's bytes are not
    /// text; `header_present` says whether the header was there at all.
    pub fn decide(&self, header_present: bool, header_text: Option<&str>, now: i64)
        -> (r: AuthDecision)
        ensures
            !header_present ==> r == AuthDecision::Reject(AuthError::MissingHeader),
            (header_present && header_text is None) ==> r == AuthDecision::Reject(
                AuthError::MalformedHeader),
            header_present ==> (header_text matches Some(h) ==> match bearer_token_of(h@) {
                None => r == AuthDecision::Reject(AuthError::MalformedScheme),
                Some(t) => match verify_model(self.key(), encode_utf8(t), now as int) {
                    Ok(c) => {
                        if c.role is Admin {
                            r matches AuthDecision::Continue(Some(cl)) && cl.model() == c
                        } else {
                            r == AuthDecision::Reject(AuthError::InsufficientRole)
                        }
                    },
                    Err(_) => r == AuthDecision::Reject(AuthError::InvalidToken),
                },
            }),
    {
        if !header_present {
            return AuthDecision::Reject(AuthError::MissingHeader);
        }
        match header_text {
            None => AuthDecision::Reject(AuthError::MalformedHeader),
            Some(h) => match extract_bearer(h) {
                None => AuthDecision::Reject(AuthError::MalformedScheme),
                Some(tok) => match self.jwt.verify_token_at(tok, now) {
                    Ok(cl) => match cl.role {
                        Role::Admin => AuthDecision::Continue(Some(cl)),
                        Role::User => AuthDecision::Reject(AuthError::InsufficientRole),
                    },
                    Err(_) => AuthDecision::Reject(AuthError::InvalidToken),
                },
            },
        }
    }

    /// The interceptor as the request pipeline calls it, at the moment the clock
    /// reads now.
    pub fn call(&self, header_present: bool, header_text: Option<&str>) -> (r: AuthDecision)
        ensures
            !header_present ==> r == AuthDecision::Reject(AuthError::MissingHeader),
            (header_present && header_text is None) ==> r == AuthDecision::Reject(
                AuthError::MalformedHeader),
    {
        let now = crate::token::now_ts();
        self.decide(header_present, header_text, now)
    }
}

} // verus!
