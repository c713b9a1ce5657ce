use auth_core::account::{AccountStore, CredentialHasher};
use auth_core::claims::Role;
use auth_core::schema::{LoginSchema, UserRegistrationSchema};
use auth_core::service::{AccountService, LoginError, RegistrationError, VerifyEmailError};
use auth_core::token::JwtService;

fn registration(email: &str, phone: &str, password: &str, confirm: &str) -> UserRegistrationSchema {
    UserRegistrationSchema {
        first_name: "Ada".to_string(),
        last_name: "Lovelace".to_string(),
        email: email.to_string(),
        phone_number: phone.to_string(),
        password: password.to_string(),
        confirm_password: confirm.to_string(),
        profile_picture: None,
        is_active: true,
        bio: None,
    }
}

#[test]
fn hash_and_verify_round_trip() {
    let digest = CredentialHasher::hash("correct horse battery").unwrap();
    assert!(CredentialHasher::verify("correct horse battery", &digest));
    assert!(!CredentialHasher::verify("correct horse battery!", &digest));
    // A malformed digest fails verification instead of crashing.
    assert!(!CredentialHasher::verify("anything", "not a digest"));
}

#[test]
fn register_with_mismatched_passwords_persists_nothing() {
    let mut store = AccountStore::new();
    let data = registration("ada@example.com", "0123456789", "longenough", "different");
    let r = AccountService::register_user(&mut store, &data, 1_700_000_000);
    assert_eq!(r.unwrap_err(), RegistrationError::PasswordMismatch);
    assert!(store.find_by_email("ada@example.com").is_none());
}

#[test]
fn register_with_short_password_is_refused() {
    let mut store = AccountStore::new();
    let data = registration("ada@example.com", "0123456789", "short", "short");
    let r = AccountService::register_user(&mut store, &data, 1_700_000_000);
    assert_eq!(r.unwrap_err(), RegistrationError::PasswordTooShort);
    assert_eq!(
        RegistrationError::PasswordTooShort.message(),
        "Password must be at least 8 characters long"
    );
}

#[test]
fn register_rejects_taken_email_before_taken_phone() {
    let mut store = AccountStore::new();
    let first = registration("ada@example.com", "0123456789", "longenough", "longenough");
    AccountService::register_user(&mut store, &first, 1_700_000_000).unwrap();

    // Same email and same phone: the email conflict is reported first.
    let both = registration("ada@example.com", "0123456789", "longenough", "longenough");
    assert_eq!(
        AccountService::register_user(&mut store, &both, 1_700_000_001).unwrap_err(),
        RegistrationError::EmailTaken
    );
    // New email, same phone.
    let phone_only = registration("grace@example.com", "0123456789", "longenough", "longenough");
    assert_eq!(
        AccountService::register_user(&mut store, &phone_only, 1_700_000_002).unwrap_err(),
        RegistrationError::PhoneTaken
    );
}

#[test]
fn end_to_end_register_verify_login() {
    let now = 1_700_000_000;
    let mut store = AccountStore::new();
    let jwt = JwtService::new(b"flow-secret".to_vec());

    // Mismatched confirmation: error response, nothing persisted.
    let bad = registration("ada@example.com", "0123456789", "longenough", "different");
    assert!(AccountService::register_user(&mut store, &bad, now).is_err());
    assert!(store.find_by_email("ada@example.com").is_none());

    // Valid distinct data: persisted unverified, with a pending code.
    let good = registration("ada@example.com", "0123456789", "longenough", "longenough");
    let account = AccountService::register_user(&mut store, &good, now).unwrap();
    assert!(!account.email_verified);
    let code = account.verification_code.clone().unwrap();
    assert_eq!(code.len(), 6);
    assert!(code.bytes().all(|b| b.is_ascii_digit()));
    assert_eq!(account.verification_code_expires_at, Some(now + 600));

    // Login before verification fails with the distinct message.
    let login = LoginSchema {
        email: "ada@example.com".to_string(),
        password: "longenough".to_string(),
    };
    let before = AccountService::login(&store, &login).unwrap_err();
    assert_eq!(before, LoginError::EmailNotVerified);
    assert_eq!(
        before.message(),
        "Please verify your email before logging in"
    );

    // A wrong code does not verify.
    let wrong = if code == "123456" { "654321" } else { "123456" };
    assert_eq!(
        AccountService::verify_email(&mut store, "ada@example.com", wrong, now + 30).unwrap_err(),
        VerifyEmailError::InvalidOrExpired
    );

    // The correct code within ten minutes flips the flag durably.
    AccountService::verify_email(&mut store, "ada@example.com", &code, now + 60).unwrap();
    assert!(store.find_by_email("ada@example.com").unwrap().email_verified);

    // Re-verifying is refused distinctly.
    assert_eq!(
        AccountService::verify_email(&mut store, "ada@example.com", &code, now + 90).unwrap_err(),
        VerifyEmailError::AlreadyVerified
    );

    // Login with a wrong password still fails, with the generic message.
    let wrong_pw = LoginSchema {
        email: "ada@example.com".to_string(),
        password: "longenough!".to_string(),
    };
    assert_eq!(
        AccountService::login(&store, &wrong_pw).unwrap_err(),
        LoginError::InvalidCredentials
    );

    // Login after verification succeeds and the minted token carries the
    // user role.
    let account = AccountService::login(&store, &login).unwrap();
    assert!(account.email_verified);
    let token = jwt
        .generate_token(
            "user-1".to_string(),
            account.email.clone(),
            account.first_name.clone(),
            account.last_name.clone(),
            Role::User,
        )
        .unwrap();
    let claims = jwt.verify_token(&token).unwrap();
    assert_eq!(claims.role, Role::User);
    assert_eq!(claims.email, "ada@example.com");
}

#[test]
fn expired_code_is_reported_as_invalid_or_expired() {
    let now = 1_700_000_000;
    let mut store = AccountStore::new();
    let data = registration("ada@example.com", "0123456789", "longenough", "longenough");
    let account = AccountService::register_user(&mut store, &data, now).unwrap();
    let code = account.verification_code.unwrap();
    // Ten minutes later the window has closed.
    let r = AccountService::verify_email(&mut store, "ada@example.com", &code, now + 600);
    assert_eq!(r.unwrap_err(), VerifyEmailError::InvalidOrExpired);
    assert!(!store.find_by_email("ada@example.com").unwrap().email_verified);
}

#[test]
fn resend_then_old_code_mismatches() {
    let now = 1_700_000_000;
    let mut store = AccountStore::new();
    let data = registration("ada@example.com", "0123456789", "longenough", "longenough");
    let account = AccountService::register_user(&mut store, &data, now).unwrap();
    let old_code = account.verification_code.unwrap();

    let new_code =
        AccountService::resend_verification_code(&mut store, "ada@example.com", now + 10).unwrap();
    if old_code != new_code {
        assert_eq!(
            AccountService::verify_email(&mut store, "ada@example.com", &old_code, now + 20)
                .unwrap_err(),
            VerifyEmailError::InvalidOrExpired
        );
    }
    AccountService::verify_email(&mut store, "ada@example.com", &new_code, now + 20).unwrap();
}

#[test]
fn login_unknown_email_and_empty_password() {
    let store = AccountStore::new();
    let unknown = LoginSchema {
        email: "nobody@example.com".to_string(),
        password: "whatever1".to_string(),
    };
    assert_eq!(
        AccountService::login(&store, &unknown).unwrap_err(),
        LoginError::InvalidCredentials
    );
    let empty = LoginSchema {
        email: "nobody@example.com".to_string(),
        password: "".to_string(),
    };
    let e = AccountService::login(&store, &empty).unwrap_err();
    assert_eq!(e, LoginError::EmptyPassword);
    assert_eq!(e.message(), "Password cannot be empty");
}
