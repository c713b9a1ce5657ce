use auth_core::email::get_verification_email_template;
use auth_core::schema::default_is_active;

#[test]
fn template_carries_name_and_code() {
    let (subject, body) = get_verification_email_template("Ada", "042137");
    assert_eq!(subject, "Your Email Verification Code");
    assert!(body.contains("Hello Ada,"));
    assert!(body.contains("042137"));
    assert!(body.contains("This code will expire in 10 minutes"));
    assert!(body.starts_with("<!DOCTYPE html>"));
}

#[test]
fn registration_is_active_by_default() {
    assert!(default_is_active());
}
