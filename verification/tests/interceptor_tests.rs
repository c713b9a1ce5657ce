use auth_core::claims::Role;
use auth_core::interceptor::{
    AdminAuthentication, AuthDecision, AuthError, Authentication, AuthenticationMiddleware,
};
use auth_core::token::JwtService;

fn secret() -> Vec<u8> {
    b"interceptor-secret".to_vec()
}

fn middleware() -> AuthenticationMiddleware {
    Authentication::new().middleware(JwtService::new(secret()))
}

fn user_token() -> String {
    JwtService::new(secret())
        .generate_token(
            "user-1".to_string(),
            "ada@example.com".to_string(),
            "Ada".to_string(),
            "Lovelace".to_string(),
            Role::User,
        )
        .unwrap()
}

fn admin_token() -> String {
    JwtService::new(secret())
        .generate_token(
            "admin-1".to_string(),
            "admin@example.com".to_string(),
            "Admin".to_string(),
            "User".to_string(),
            Role::Admin,
        )
        .unwrap()
}

#[test]
fn public_paths_pass_without_any_header() {
    let mw = middleware();
    for path in [
        "/api/users/login",
        "/api/users/register",
        "/api/users/verify-email",
        "/api/users/resend-verification",
    ] {
        match mw.call(path, None) {
            AuthDecision::Continue(claims) => assert!(claims.is_none()),
            AuthDecision::Reject(_) => panic!("public path {} was rejected", path),
        }
    }
}

#[test]
fn other_paths_without_header_are_rejected_with_401() {
    let mw = middleware();
    for path in ["/api/users/profile", "/api/users/", "/api/users/login/", "/health"] {
        match mw.call(path, None) {
            AuthDecision::Reject(e) => {
                assert_eq!(e, AuthError::MissingToken);
                assert_eq!(e.status(), 401);
                assert_eq!(e.message(), "No authorization token provided");
            }
            AuthDecision::Continue(_) => panic!("path {} passed without a token", path),
        }
    }
}

#[test]
fn non_bearer_or_empty_header_counts_as_missing_token() {
    let mw = middleware();
    for header in ["Basic abc", "Bearer", "Bearer ", "bearer x", ""] {
        match mw.call("/api/users/profile", Some(header)) {
            AuthDecision::Reject(e) => assert_eq!(e, AuthError::MissingToken),
            AuthDecision::Continue(_) => panic!("header {:?} passed", header),
        }
    }
}

#[test]
fn valid_bearer_token_continues_with_claims() {
    let mw = middleware();
    let header = format!("Bearer {}", user_token());
    match mw.call("/api/users/profile", Some(&header)) {
        AuthDecision::Continue(Some(claims)) => {
            assert_eq!(claims.sub, "user-1");
            assert_eq!(claims.role, Role::User);
        }
        _ => panic!("valid token did not continue"),
    }
}

#[test]
fn garbage_bearer_token_is_invalid() {
    let mw = middleware();
    match mw.call("/api/users/profile", Some("Bearer not.a.token")) {
        AuthDecision::Reject(e) => {
            assert_eq!(e, AuthError::InvalidToken);
            assert_eq!(e.message(), "Invalid or expired token");
        }
        AuthDecision::Continue(_) => panic!("garbage token passed"),
    }
}

#[test]
fn admin_scope_requires_admin_role() {
    let mw = AdminAuthentication::new().middleware(JwtService::new(secret()));

    // A valid token with the user role is refused with the distinct reason.
    let header = format!("Bearer {}", user_token());
    match mw.call(true, Some(&header)) {
        AuthDecision::Reject(e) => {
            assert_eq!(e, AuthError::InsufficientRole);
            assert_eq!(e.status(), 401);
            assert_eq!(e.message(), "Insufficient permissions");
        }
        AuthDecision::Continue(_) => panic!("user token passed the admin interceptor"),
    }

    // The same request with the administrator role proceeds.
    let header = format!("Bearer {}", admin_token());
    match mw.call(true, Some(&header)) {
        AuthDecision::Continue(Some(claims)) => assert_eq!(claims.role, Role::Admin),
        _ => panic!("admin token did not continue"),
    }
}

#[test]
fn admin_scope_header_errors() {
    let mw = AdminAuthentication::new().middleware(JwtService::new(secret()));
    match mw.call(false, None) {
        AuthDecision::Reject(e) => {
            assert_eq!(e, AuthError::MissingHeader);
            assert_eq!(e.message(), "No authorization header");
        }
        AuthDecision::Continue(_) => panic!("missing header passed"),
    }
    match mw.call(true, None) {
        AuthDecision::Reject(e) => {
            assert_eq!(e, AuthError::MalformedHeader);
            assert_eq!(e.message(), "Invalid authorization header");
        }
        AuthDecision::Continue(_) => panic!("undecodable header passed"),
    }
    match mw.call(true, Some("Token abc")) {
        AuthDecision::Reject(e) => {
            assert_eq!(e, AuthError::MalformedScheme);
            assert_eq!(e.message(), "Invalid authorization format");
        }
        AuthDecision::Continue(_) => panic!("non-bearer scheme passed"),
    }
}
