use auth_core::account::{Account, AccountStore};
use auth_core::codes::{generate_verification_code, CodeCheck, VerificationCodeManager};

fn account_with_code(code: &str, expires_at: i64, verified: bool) -> Account {
    let mut a = Account::new(
        "Ada".to_string(),
        "Lovelace".to_string(),
        "ada@example.com".to_string(),
        "0123456789".to_string(),
        "$2b$12$abcdefghijklmnopqrstuv".to_string(),
        1_700_000_000,
    );
    a.verification_code = Some(code.to_string());
    a.verification_code_expires_at = Some(expires_at);
    a.email_verified = verified;
    a
}

#[test]
fn generated_code_is_six_digits() {
    for _ in 0..32 {
        let code = generate_verification_code();
        assert_eq!(code.len(), 6);
        assert!(code.bytes().all(|b| b.is_ascii_digit()));
    }
}

#[test]
fn correct_code_before_expiry_is_valid_exactly_once_path() {
    let issued_at = 1_700_000_000;
    let expires = issued_at + 600;
    let a = account_with_code("042137", expires, false);
    // Valid strictly before the expiry.
    assert_eq!(
        VerificationCodeManager::check(&a, "042137", issued_at + 1),
        CodeCheck::Valid
    );
    // The same code at and after the expiry is expired, not mismatched.
    assert_eq!(
        VerificationCodeManager::check(&a, "042137", expires),
        CodeCheck::Expired
    );
    assert_eq!(
        VerificationCodeManager::check(&a, "042137", expires + 1000),
        CodeCheck::Expired
    );
    // Any other six-digit string mismatches.
    assert_eq!(
        VerificationCodeManager::check(&a, "042138", issued_at + 1),
        CodeCheck::Mismatch
    );
    assert_eq!(
        VerificationCodeManager::check(&a, "000000", issued_at + 1),
        CodeCheck::Mismatch
    );
}

#[test]
fn verified_account_short_circuits_before_any_comparison() {
    let a = account_with_code("042137", 1_700_000_600, true);
    assert_eq!(
        VerificationCodeManager::check(&a, "042137", 1_700_000_001),
        CodeCheck::AlreadyVerified
    );
    assert_eq!(
        VerificationCodeManager::check(&a, "999999", 1_700_000_001),
        CodeCheck::AlreadyVerified
    );
}

#[test]
fn missing_code_means_not_started() {
    let a = Account::new(
        "Ada".to_string(),
        "Lovelace".to_string(),
        "ada@example.com".to_string(),
        "0123456789".to_string(),
        "$2b$12$abcdefghijklmnopqrstuv".to_string(),
        1_700_000_000,
    );
    assert_eq!(
        VerificationCodeManager::check(&a, "042137", 1_700_000_001),
        CodeCheck::NotStarted
    );
}

#[test]
fn resend_overwrites_code_and_invalidates_the_old_one() {
    let now = 1_700_000_000;
    let mut store = AccountStore::new();
    store.insert(account_with_code("042137", now + 600, false));

    let new_code = VerificationCodeManager::issue_for(&mut store, "ada@example.com", now + 60);
    let account = store.find_by_email("ada@example.com").unwrap();
    assert_eq!(account.verification_code.as_deref(), Some(new_code.as_str()));
    assert_eq!(account.verification_code_expires_at, Some(now + 60 + 600));

    if new_code != "042137" {
        // The previous code now mismatches, well within its old window.
        assert_eq!(
            VerificationCodeManager::check(account, "042137", now + 61),
            CodeCheck::Mismatch
        );
    }
    // The fresh code is the one that counts.
    assert_eq!(
        VerificationCodeManager::check(account, &new_code, now + 61),
        CodeCheck::Valid
    );
}
