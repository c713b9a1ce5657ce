use auth_core::claims::{Claims, Role};
use auth_core::token::{check_token, issue_token, JwtService, TokenError};

fn secret() -> Vec<u8> {
    b"test-signing-secret".to_vec()
}

fn sample_claims(exp: i64, iat: i64, role: Role) -> Claims {
    Claims {
        sub: "651f2e9b8c1a4e0001a30000".to_string(),
        exp,
        iat,
        jti: "token-1234".to_string(),
        email: "ada@example.com".to_string(),
        first_name: "Ada".to_string(),
        last_name: "Lovelace".to_string(),
        role,
    }
}

#[test]
fn token_round_trip_user() {
    let claims = sample_claims(2_000_000_000, 1_700_000_000, Role::User);
    let token = issue_token(&secret(), &claims).unwrap();
    let back = check_token(&secret(), &token, 1_700_000_100).unwrap();
    assert_eq!(back.sub, "651f2e9b8c1a4e0001a30000");
    assert_eq!(back.exp, 2_000_000_000);
    assert_eq!(back.iat, 1_700_000_000);
    assert_eq!(back.jti, "token-1234");
    assert_eq!(back.email, "ada@example.com");
    assert_eq!(back.first_name, "Ada");
    assert_eq!(back.last_name, "Lovelace");
    assert_eq!(back.role, Role::User);
}

#[test]
fn token_round_trip_admin_role() {
    let claims = sample_claims(2_000_000_000, 1_700_000_000, Role::Admin);
    let token = issue_token(&secret(), &claims).unwrap();
    let back = check_token(&secret(), &token, 1_700_000_100).unwrap();
    assert_eq!(back.role, Role::Admin);
}

#[test]
fn token_round_trip_with_escapes() {
    let mut claims = sample_claims(2_000_000_000, 1_700_000_000, Role::User);
    claims.first_name = "A\"da\\line\nbreak".to_string();
    claims.last_name = "Löve λ ace".to_string();
    let token = issue_token(&secret(), &claims).unwrap();
    let back = check_token(&secret(), &token, 1_700_000_100).unwrap();
    assert_eq!(back.first_name, "A\"da\\line\nbreak");
    assert_eq!(back.last_name, "Löve λ ace");
}

#[test]
fn expired_token_rejected_even_with_valid_signature() {
    let claims = sample_claims(1_700_000_000, 1_699_913_600, Role::User);
    let token = issue_token(&secret(), &claims).unwrap();
    assert!(check_token(&secret(), &token, 1_699_999_999).is_ok());
    assert_eq!(
        check_token(&secret(), &token, 1_700_000_000).unwrap_err(),
        TokenError::Expired
    );
    assert_eq!(
        check_token(&secret(), &token, 1_900_000_000).unwrap_err(),
        TokenError::Expired
    );
}

#[test]
fn flipped_signature_byte_rejected() {
    let claims = sample_claims(2_000_000_000, 1_700_000_000, Role::User);
    let token = issue_token(&secret(), &claims).unwrap();
    let dot = token.rfind('.').unwrap();
    let mut bytes = token.into_bytes();
    for i in (dot + 1)..bytes.len() {
        let flipped = if bytes[i] == b'A' { b'B' } else { b'A' };
        let mut tampered = bytes.clone();
        tampered[i] = flipped;
        let tampered = String::from_utf8(tampered).unwrap();
        assert_eq!(
            check_token(&secret(), &tampered, 1_700_000_100).unwrap_err(),
            TokenError::Invalid
        );
    }
    // The untouched token still verifies.
    let token = String::from_utf8(bytes).unwrap();
    assert!(check_token(&secret(), &token, 1_700_000_100).is_ok());
}

#[test]
fn tampered_payload_rejected() {
    let claims = sample_claims(2_000_000_000, 1_700_000_000, Role::User);
    let token = issue_token(&secret(), &claims).unwrap();
    let parts: Vec<&str> = token.split('.').collect();
    assert_eq!(parts.len(), 3);
    let mut payload = parts[1].to_string();
    let replacement = if payload.ends_with('A') { 'B' } else { 'A' };
    payload.pop();
    payload.push(replacement);
    let tampered = format!("{}.{}.{}", parts[0], payload, parts[2]);
    assert_eq!(
        check_token(&secret(), &tampered, 1_700_000_100).unwrap_err(),
        TokenError::Invalid
    );
}

#[test]
fn malformed_tokens_rejected() {
    for bad in [
        "",
        "abc",
        "a.b",
        "a.b.c",
        "....",
        "not a token at all",
        "Zm9v.Zm9v.Zm9v",
    ] {
        assert_eq!(
            check_token(&secret(), bad, 1_700_000_100).unwrap_err(),
            TokenError::Invalid,
            "token {:?} should be invalid",
            bad
        );
    }
}

#[test]
fn wrong_key_rejected() {
    let claims = sample_claims(2_000_000_000, 1_700_000_000, Role::User);
    let token = issue_token(&secret(), &claims).unwrap();
    assert_eq!(
        check_token(b"another-secret", &token, 1_700_000_100).unwrap_err(),
        TokenError::Invalid
    );
}

#[test]
fn issued_token_is_a_real_jwt() {
    // The token must be verifiable by the jsonwebtoken crate itself: same
    // signature scheme, same payload text.
    let claims = sample_claims(2_000_000_000, 1_700_000_000, Role::User);
    let token = issue_token(&secret(), &claims).unwrap();
    let key = jsonwebtoken::DecodingKey::from_secret(&secret());
    let validation = jsonwebtoken::Validation::new(jsonwebtoken::Algorithm::HS256);
    let decoded =
        jsonwebtoken::decode::<serde_json::Value>(&token, &key, &validation).unwrap();
    assert_eq!(decoded.claims["sub"], "651f2e9b8c1a4e0001a30000");
    assert_eq!(decoded.claims["exp"], 2_000_000_000i64);
    assert_eq!(decoded.claims["iat"], 1_700_000_000i64);
    assert_eq!(decoded.claims["jti"], "token-1234");
    assert_eq!(decoded.claims["email"], "ada@example.com");
    assert_eq!(decoded.claims["first_name"], "Ada");
    assert_eq!(decoded.claims["last_name"], "Lovelace");
    assert_eq!(decoded.claims["role"], "User");
}

#[test]
fn jwt_service_generates_and_verifies() {
    let jwt = JwtService::new(secret());
    let token = jwt
        .generate_token(
            "user-1".to_string(),
            "ada@example.com".to_string(),
            "Ada".to_string(),
            "Lovelace".to_string(),
            Role::User,
        )
        .unwrap();
    let claims = jwt.verify_token(&token).unwrap();
    assert_eq!(claims.sub, "user-1");
    assert_eq!(claims.role, Role::User);
    assert_eq!(claims.exp, claims.iat + 86400);
    assert!(!claims.jti.is_empty());
}
