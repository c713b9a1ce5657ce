use auth_core::account::{Account, AccountStore};
use auth_core::claims::{Claims, Role};
use auth_core::schema::LoginSchema;
use auth_core::service::{AccountService, LoginError, ResendError, VerifyEmailError};
use auth_core::token::{issue_token, TokenError};

fn plain_account(email: &str, hash: &str) -> Account {
    Account::new(
        "Ada".to_string(),
        "Lovelace".to_string(),
        email.to_string(),
        "0123456789".to_string(),
        hash.to_string(),
        1_700_000_000,
    )
}

#[test]
fn issue_refuses_negative_timestamps() {
    let claims = Claims {
        sub: "u".to_string(),
        exp: -1,
        iat: 0,
        jti: "j".to_string(),
        email: "e@example.com".to_string(),
        first_name: "A".to_string(),
        last_name: "B".to_string(),
        role: Role::User,
    };
    assert_eq!(issue_token(b"k", &claims).unwrap_err(), TokenError::Invalid);
}

#[test]
fn login_with_malformed_stored_digest_reports_verification_failure() {
    let mut store = AccountStore::new();
    let mut account = plain_account("ada@example.com", "not a bcrypt digest");
    account.email_verified = true;
    store.insert(account);
    let data = LoginSchema {
        email: "ada@example.com".to_string(),
        password: "whatever1".to_string(),
    };
    let e = AccountService::login(&store, &data).unwrap_err();
    assert_eq!(e, LoginError::VerificationFailed);
}

#[test]
fn verify_email_for_unknown_account_is_not_found() {
    let mut store = AccountStore::new();
    let e = AccountService::verify_email(&mut store, "nobody@example.com", "123456", 0)
        .unwrap_err();
    assert_eq!(e, VerifyEmailError::NotFound);
    assert_eq!(e.message(), "User not found.");
}

#[test]
fn verify_email_without_pending_code_is_not_started() {
    let mut store = AccountStore::new();
    store.insert(plain_account("ada@example.com", "$2b$12$abcdefghijklmnopqrstuv"));
    let e = AccountService::verify_email(&mut store, "ada@example.com", "123456", 0).unwrap_err();
    assert_eq!(e, VerifyEmailError::NotStarted);
    assert_eq!(e.message(), "No verification process started for this user.");
}

#[test]
fn resend_errors() {
    let mut store = AccountStore::new();
    assert_eq!(
        AccountService::resend_verification_code(&mut store, "nobody@example.com", 0)
            .unwrap_err(),
        ResendError::NotFound
    );
    let mut verified = plain_account("ada@example.com", "$2b$12$abcdefghijklmnopqrstuv");
    verified.email_verified = true;
    store.insert(verified);
    assert_eq!(
        AccountService::resend_verification_code(&mut store, "ada@example.com", 0).unwrap_err(),
        ResendError::AlreadyVerified
    );
}
