//! The request bodies the account endpoints accept, as plain data. The
//! transport layer decodes JSON into these before the core runs.

use vstd::prelude::*;

verus! {

/// What a registration request carries.
pub struct UserRegistrationSchema {
    pub first_name: String,
    pub last_name: String,
    pub email: String,
    pub phone_number: String,
    pub password: String,
    pub confirm_password: String,
    pub profile_picture: Option<String>,
    pub is_active: bool,
    pub bio: Option<String>,
}

/// What a login request carries.
pub struct LoginSchema {
    pub email: String,
    pub password: String,
}

/// What an email-verification request carries.
pub struct VerifyEmailSchema {
    pub email: String,
    pub verification_code: String,
}

/// What an administrative login request carries.
pub struct AdminLoginSchema {
    pub email: String,
    pub password: String,
}

/// The `is_active` flag a registration gets when the request leaves it out.
pub fn default_is_active() -> (r: bool)
    ensures
        r == true,
{
    true
}

/// The identity fields an external sign-in provider reports.
pub struct GoogleUserInfo {
    pub id: String,
    pub email: String,
    pub verified_email: bool,
    pub name: String,
    pub given_name: String,
    pub family_name: String,
    pub picture: String,
    pub locale: Option<String>,
}

} // verus!
