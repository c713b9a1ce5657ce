//! The administrative side: login validation, the admin login that mints an
//! administrator token, and the idempotent first-run bootstrap.

use vstd::prelude::*;
use vstd::utf8::encode_utf8;
use crate::account::{bcrypt_verdict, find_email_index, Account, AccountStore, CredentialHasher};
use crate::claims::{claims_wf, ClaimsData, Role};
use crate::schema::AdminLoginSchema;
use crate::token::{token_bytes, JwtService};

verus! {

/// The well-known bootstrap administrator account.
pub const ADMIN_EMAIL: &'static str = "admin@example.com";

/// Its first-run password. A development convenience, replaced in any real
/// deployment.
pub const ADMIN_PASSWORD: &'static str = "admin123456";

/// Whether a string has the email shape, as the `validator` crate judges
/// it. A function of the characters alone.
pub uninterp spec fn email_format_ok(s: Seq<char>) -> bool;

/// Relies on validator's `ValidateEmail` for `&str`: the HTML5 email shape,
/// decided from the characters alone.
#[verifier::external_body]
fn validate_email_str(s: &str) -> (r: bool)
    ensures
        r == email_format_ok(s@),
{
    validator::ValidateEmail::validate_email(&s)
}

/// Why an administrative login request is refused before any lookup.
#[derive(Clone, Copy, Debug, PartialEq, Eq, Structural)]
pub enum AdminValidationError {
    InvalidEmail,
    PasswordTooShort,
}

impl AdminValidationError {
    /// The reason in the words the response shows.
    pub fn message(&self) -> (r: String)
        ensures
            self is InvalidEmail ==> r@ == "Invalid email format"@,
            self is PasswordTooShort ==> r@ == "Password must be at least 6 characters long"@,
    {
        match self {
            AdminValidationError::InvalidEmail => "Invalid email format".to_owned(),
            AdminValidationError::PasswordTooShort => {
                "Password must be at least 6 characters long".to_owned()
            }
        }
    }
}

/// The checks an administrative login must pass first.
pub trait AdminValidation {
    /// The email must have the email shape and the password at least six
    /// characters.
    fn validate_login(data: &AdminLoginSchema) -> (r: Result<(), AdminValidationError>)
        ensures
            ({
                if !email_format_ok(data.email@) {
                    r == Err::<(), AdminValidationError>(AdminValidationError::InvalidEmail)
                } else if data.password@.len() < 6 {
                    r == Err::<(), AdminValidationError>(AdminValidationError::PasswordTooShort)
                } else {
                    r is Ok
                }
            }),
    ;
}

/// Why an administrative login fails.
#[derive(Clone, Copy, Debug, PartialEq, Eq, Structural)]
pub enum AdminLoginError {
    Validation(AdminValidationError),
    InvalidCredentials,
    VerificationFailed,
    TokenFailed,
}

impl AdminLoginError {
    /// The reason in the words the response shows.
    pub fn message(&self) -> (r: String)
        ensures
            self matches AdminLoginError::Validation(e) ==> (e is InvalidEmail ==> r@ == "Invalid email format"@)
                && (e is PasswordTooShort ==> r@
                == "Password must be at least 6 characters long"@),
            self is InvalidCredentials ==> r@ == "Invalid email or password"@,
            self is VerificationFailed ==> r@ == "Password verification failed"@,
            self is TokenFailed ==> r@ == "Failed to generate token"@,
    {
        match self {
            AdminLoginError::Validation(e) => e.message(),
            AdminLoginError::InvalidCredentials => "Invalid email or password".to_owned(),
            AdminLoginError::VerificationFailed => "Password verification failed".to_owned(),
            AdminLoginError::TokenFailed => "Failed to generate token".to_owned(),
        }
    }
}

/// Handles administrative logins and the first-run bootstrap.
pub struct AdminService {}

impl AdminValidation for AdminService {
    fn validate_login(data: &AdminLoginSchema) -> (r: Result<(), AdminValidationError>) {
        if !validate_email_str(data.email.as_str()) {
            Err(AdminValidationError::InvalidEmail)
        } else if data.password.as_str().unicode_len() < 6 {
            Err(AdminValidationError::PasswordTooShort)
        } else {
            Ok(())
        }
    }
}

impl AdminService {
    /// Logs an administrator in: validates, finds an account under the
    /// email that carries the administrator role, checks the password, and
    /// mints a token whose claims carry that role.
    pub fn login(
        store: &AccountStore,
        jwt: &JwtService,
        data: &AdminLoginSchema,
    ) -> (r: Result<String, AdminLoginError>)
        ensures
            ({
                let idx = find_email_index(store.rows(), data.email@);
                let found = idx >= 0 && store.rows()[idx].role is Admin;
                match r {
                    Ok(t) => {
                        &&& email_format_ok(data.email@) && data.password@.len() >= 6
                        &&& found
                        &&& bcrypt_verdict(
                            encode_utf8(data.password@), store.rows()[idx].password_hash)
                            == Some(true)
                        &&& exists|c: ClaimsData|
                            claims_wf(c) && encode_utf8(t@) == token_bytes(jwt.key(), c)
                                && c.role == Role::Admin && c.sub == (match store.rows()[idx].id {
                                Some(s) => encode_utf8(s),
                                None => encode_utf8("unknown"@),
                            })
                    },
                    Err(e) => {
                        &&& (e matches AdminLoginError::Validation(v) ==> (v is InvalidEmail <==> !email_format_ok(
                            data.email@)) && (v is PasswordTooShort ==> data.password@.len() < 6))
                        &&& (e is InvalidCredentials <==> (email_format_ok(data.email@)
                            && data.password@.len() >= 6 && (!found || (found && bcrypt_verdict(
                            encode_utf8(data.password@), store.rows()[idx].password_hash)
                            == Some(false)))))
                        &&& (e is VerificationFailed <==> (email_format_ok(data.email@)
                            && data.password@.len() >= 6 && found && bcrypt_verdict(
                            encode_utf8(data.password@), store.rows()[idx].password_hash)
                            is None))
                    },
                }
            }),
    {
        match Self::validate_login(data) {
            Ok(()) => {}
            Err(e) => {
                return Err(AdminLoginError::Validation(e));
            }
        }
        let account = match store.find_by_email(data.email.as_str()) {
            None => {
                return Err(AdminLoginError::InvalidCredentials);
            }
            Some(a) => a,
        };
        match account.role {
            Role::User => {
                return Err(AdminLoginError::InvalidCredentials);
            }
            Role::Admin => {}
        }
        match CredentialHasher::check(data.password.as_str(), account.password_hash.as_str()) {
            None => {
                return Err(AdminLoginError::VerificationFailed);
            }
            Some(false) => {
                return Err(AdminLoginError::InvalidCredentials);
            }
            Some(true) => {}
        }
        let admin_id = match &account.id {
            Some(s) => s.as_str().to_owned(),
            None => "unknown".to_owned(),
        };
        match jwt.generate_token(
            admin_id,
            account.email.as_str().to_owned(),
            "Admin".to_owned(),
            "User".to_owned(),
            Role::Admin,
        ) {
            Ok(t) => Ok(t),
            Err(_) => Err(AdminLoginError::TokenFailed),
        }
    }

    /// Creates the bootstrap administrator unless an account under the
    /// well-known email already exists. Safe to run at every start.
    pub fn initialize_admin(store: &mut AccountStore, now: i64) -> (r: Result<(), ()>)
        requires
            old(store).wf(),
        ensures
            final(store).wf(),
            ({
                let idx = find_email_index(old(store).rows(), ADMIN_EMAIL@);
                if idx >= 0 {
                    final(store).rows() == old(store).rows() && r is Ok
                } else {
                    match r {
                        Ok(()) => final(store).rows().len() == old(store).rows().len() + 1
                            && final(store).rows().last().email == ADMIN_EMAIL@ && final(
                            store).rows().last().role is Admin && final(store).rows() == old(
                            store).rows().push(final(store).rows().last()),
                        Err(()) => final(store).rows() == old(store).rows(),
                    }
                }
            }),
    {
        if store.find_by_email(ADMIN_EMAIL).is_some() {
            return Ok(());
        }
        let password_hash = match CredentialHasher::hash(ADMIN_PASSWORD) {
            Ok(h) => h,
            Err(_) => {
                return Err(());
            }
        };
        let mut admin = Account::new(
            "Admin".to_owned(),
            "User".to_owned(),
            ADMIN_EMAIL.to_owned(),
            String::new(),
            password_hash,
            now,
        );
        admin.role = Role::Admin;
        admin.email_verified = true;
        store.insert(admin);
        Ok(())
    }
}

} // verus!
