//! The registration → verify → login lifecycle, orchestrating the store,
//! the hasher and the code manager. Mail dispatch stays with the caller:
//! registration and resend hand back what the email needs.

use vstd::prelude::*;
use vstd::utf8::encode_utf8;
use crate::account::{bcrypt_verdict, clone_account, find_email_index, find_phone_index, Account,
    AccountData, AccountStore, CredentialHasher};
use crate::claims::Role;
use crate::codes::{code_check_model, is_code, CodeCheck, VerificationCodeManager};
use crate::schema::{LoginSchema, UserRegistrationSchema};

verus! {

/// Why a registration is refused.
#[derive(Clone, Copy, Debug, PartialEq, Eq, Structural)]
pub enum RegistrationError {
    PasswordMismatch,
    PasswordTooShort,
    EmailTaken,
    PhoneTaken,
    HashFailed,
}

impl RegistrationError {
    /// The reason in the words the response shows.
    pub fn message(&self) -> (r: String)
        ensures
            self is PasswordMismatch ==> r@ == "Passwords do not match"@,
            self is PasswordTooShort ==> r@ == "Password must be at least 8 characters long"@,
            self is EmailTaken ==> r@ == "Email already registered"@,
            self is PhoneTaken ==> r@ == "Phone number already registered"@,
            self is HashFailed ==> r@ == "Password hashing error"@,
    {
        match self {
            RegistrationError::PasswordMismatch => "Passwords do not match".to_owned(),
            RegistrationError::PasswordTooShort => {
                "Password must be at least 8 characters long".to_owned()
            }
            RegistrationError::EmailTaken => "Email already registered".to_owned(),
            RegistrationError::PhoneTaken => "Phone number already registered".to_owned(),
            RegistrationError::HashFailed => "Password hashing error".to_owned(),
        }
    }
}

/// Why a login is refused.
#[derive(Clone, Copy, Debug, PartialEq, Eq, Structural)]
pub enum LoginError {
    EmptyPassword,
    InvalidCredentials,
    VerificationFailed,
    EmailNotVerified,
}

impl LoginError {
    /// The reason in the words the response shows. A wrong password and an
    /// unknown email read the same on purpose; an unverified email reads
    /// differently on purpose.
    pub fn message(&self) -> (r: String)
        ensures
            self is EmptyPassword ==> r@ == "Password cannot be empty"@,
            self is InvalidCredentials ==> r@ == "Invalid email or password"@,
            self is VerificationFailed ==> r@ == "Password verification failed"@,
            self is EmailNotVerified ==> r@ == "Please verify your email before logging in"@,
    {
        match self {
            LoginError::EmptyPassword => "Password cannot be empty".to_owned(),
            LoginError::InvalidCredentials => "Invalid email or password".to_owned(),
            LoginError::VerificationFailed => "Password verification failed".to_owned(),
            LoginError::EmailNotVerified => {
                "Please verify your email before logging in".to_owned()
            }
        }
    }
}

/// Why an email verification is refused.
#[derive(Clone, Copy, Debug, PartialEq, Eq, Structural)]
pub enum VerifyEmailError {
    NotFound,
    AlreadyVerified,
    InvalidOrExpired,
    NotStarted,
}

impl VerifyEmailError {
    /// The reason in the words the response shows.
    pub fn message(&self) -> (r: String)
        ensures
            self is NotFound ==> r@ == "User not found."@,
            self is AlreadyVerified ==> r@ == "Email is already verified."@,
            self is InvalidOrExpired ==> r@ == "Invalid or expired verification code."@,
            self is NotStarted ==> r@ == "No verification process started for this user."@,
    {
        match self {
            VerifyEmailError::NotFound => "User not found.".to_owned(),
            VerifyEmailError::AlreadyVerified => "Email is already verified.".to_owned(),
            VerifyEmailError::InvalidOrExpired => {
                "Invalid or expired verification code.".to_owned()
            }
            VerifyEmailError::NotStarted => {
                "No verification process started for this user.".to_owned()
            }
        }
    }
}

/// Why a resend is refused.
#[derive(Clone, Copy, Debug, PartialEq, Eq, Structural)]
pub enum ResendError {
    NotFound,
    AlreadyVerified,
}

impl ResendError {
    /// The reason in the words the response shows.
    pub fn message(&self) -> (r: String)
        ensures
            self is NotFound ==> r@ == "User not found."@,
            self is AlreadyVerified ==> r@ == "Email is already verified."@,
    {
        match self {
            ResendError::NotFound => "User not found.".to_owned(),
            ResendError::AlreadyVerified => "Email is already verified.".to_owned(),
        }
    }
}

/// The checks a request must pass before any store or hashing work.
pub trait UserValidation {
    /// Password and confirmation must agree, and the password must be at
    /// least eight bytes.
    fn validate_registration(data: &UserRegistrationSchema) -> (r: Result<(), RegistrationError>)
        ensures
            ({
                if data.password@ != data.confirm_password@ {
                    r == Err::<(), RegistrationError>(RegistrationError::PasswordMismatch)
                } else if encode_utf8(data.password@).len() < 8 {
                    r == Err::<(), RegistrationError>(RegistrationError::PasswordTooShort)
                } else {
                    r is Ok
                }
            }),
    ;

    /// The password must not be empty.
    fn validate_login(data: &LoginSchema) -> (r: Result<(), LoginError>)
        ensures
            ({
                if data.password@.len() == 0 {
                    r == Err::<(), LoginError>(LoginError::EmptyPassword)
                } else {
                    r is Ok
                }
            }),
    ;
}

/// Orchestrates registration, login, email verification and resend over the
/// account store.
pub struct AccountService {}

impl UserValidation for AccountService {
    fn validate_registration(data: &UserRegistrationSchema) -> (r: Result<(), RegistrationError>) {
        if !crate::strutil::str_eq(data.password.as_str(), data.confirm_password.as_str()) {
            Err(RegistrationError::PasswordMismatch)
        } else if data.password.as_str().as_bytes().len() < 8 {
            Err(RegistrationError::PasswordTooShort)
        } else {
            Ok(())
        }
    }

    fn validate_login(data: &LoginSchema) -> (r: Result<(), LoginError>) {
        if data.password.as_str().is_empty() {
            Err(LoginError::EmptyPassword)
        } else {
            Ok(())
        }
    }
}

impl AccountService {
    /// Registers a new user: validates, refuses taken emails before taken
    /// phones, hashes the password, draws a code with a ten-minute window,
    /// and persists the account unverified. The caller dispatches the email
    /// afterwards, off the response path.
    pub fn register_user(
        store: &mut AccountStore,
        data: &UserRegistrationSchema,
        now: i64,
    ) -> (r: Result<Account, RegistrationError>)
        requires
            old(store).wf(),
            now <= i64::MAX - 600,
        ensures
            final(store).wf(),
            match r {
                Ok(a) => {
                    &&& data.password@ == data.confirm_password@
                    &&& encode_utf8(data.password@).len() >= 8
                    &&& find_email_index(old(store).rows(), data.email@) == -1
                    &&& find_phone_index(old(store).rows(), data.phone_number@) == -1
                    &&& final(store).rows() == old(store).rows().push(a.model())
                    &&& a.model().email == data.email@
                    &&& a.model().first_name == data.first_name@
                    &&& a.model().last_name == data.last_name@
                    &&& a.model().phone_number == data.phone_number@
                    &&& a.model().role == Role::User
                    &&& a.model().email_verified == false
                    &&& (a.model().verification_code matches Some(c) && is_code(c))
                    &&& a.model().verification_code_expires_at == Some(now + 600 as int)
                    &&& bcrypt_verdict(encode_utf8(data.password@), a.model().password_hash)
                        == Some(true)
                },
                Err(e) => {
                    &&& final(store).rows() == old(store).rows()
                    &&& (e is PasswordMismatch <==> data.password@ != data.confirm_password@)
                    &&& (e is PasswordTooShort <==> (data.password@ == data.confirm_password@
                        && encode_utf8(data.password@).len() < 8))
                    &&& (e is EmailTaken <==> (data.password@ == data.confirm_password@
                        && encode_utf8(data.password@).len() >= 8
                        && find_email_index(old(store).rows(), data.email@) >= 0))
                    &&& (e is PhoneTaken <==> (data.password@ == data.confirm_password@
                        && encode_utf8(data.password@).len() >= 8
                        && find_email_index(old(store).rows(), data.email@) == -1
                        && find_phone_index(old(store).rows(), data.phone_number@) >= 0))
                    &&& e is HashFailed ==> (data.password@ == data.confirm_password@
                        && encode_utf8(data.password@).len() >= 8
                        && find_email_index(old(store).rows(), data.email@) == -1
                        && find_phone_index(old(store).rows(), data.phone_number@) == -1)
                },
            },
    {
        match Self::validate_registration(data) {
            Ok(()) => {}
            Err(e) => {
                return Err(e);
            }
        }
        if store.find_by_email(data.email.as_str()).is_some() {
            return Err(RegistrationError::EmailTaken);
        }
        if store.find_by_phone(data.phone_number.as_str()).is_some() {
            return Err(RegistrationError::PhoneTaken);
        }
        let password_hash = match CredentialHasher::hash(data.password.as_str()) {
            Ok(h) => h,
            Err(_) => {
                return Err(RegistrationError::HashFailed);
            }
        };
        let verification_code = VerificationCodeManager::generate();
        let mut account = Account::new(
            data.first_name.as_str().to_owned(),
            data.last_name.as_str().to_owned(),
            data.email.as_str().to_owned(),
            data.phone_number.as_str().to_owned(),
            password_hash,
            now,
        );
        account.verification_code = Some(verification_code);
        account.verification_code_expires_at = Some(now + 600);
        let saved = clone_account(&account);
        store.insert(account);
        Ok(saved)
    }

    /// Logs a user in: finds the account, checks the password against its
    /// digest, and refuses accounts whose email is not yet verified — in
    /// words distinct from a wrong password.
    pub fn login(store: &AccountStore, data: &LoginSchema) -> (r: Result<Account, LoginError>)
        ensures
            ({
                let idx = find_email_index(store.rows(), data.email@);
                match r {
                    Ok(a) => data.password@.len() > 0 && idx >= 0 && a.model()
                        == store.rows()[idx] && bcrypt_verdict(
                        encode_utf8(data.password@), store.rows()[idx].password_hash)
                        == Some(true) && store.rows()[idx].email_verified,
                    Err(e) => {
                        &&& (e is EmptyPassword <==> data.password@.len() == 0)
                        &&& (e is InvalidCredentials <==> (data.password@.len() > 0 && (idx == -1
                            || (idx >= 0 && bcrypt_verdict(
                            encode_utf8(data.password@), store.rows()[idx].password_hash)
                            == Some(false)))))
                        &&& (e is VerificationFailed <==> (data.password@.len() > 0 && idx >= 0
                            && bcrypt_verdict(
                            encode_utf8(data.password@), store.rows()[idx].password_hash)
                            is None))
                        &&& (e is EmailNotVerified <==> (data.password@.len() > 0 && idx >= 0
                            && bcrypt_verdict(
                            encode_utf8(data.password@), store.rows()[idx].password_hash)
                            == Some(true) && !store.rows()[idx].email_verified))
                    },
                }
            }),
    {
        match Self::validate_login(data) {
            Ok(()) => {}
            Err(e) => {
                return Err(e);
            }
        }
        match store.find_by_email(data.email.as_str()) {
            None => Err(LoginError::InvalidCredentials),
            Some(a) => match CredentialHasher::check(data.password.as_str(), a.password_hash.as_str()) {
                None => Err(LoginError::VerificationFailed),
                Some(false) => Err(LoginError::InvalidCredentials),
                Some(true) => {
                    if !a.email_verified {
                        Err(LoginError::EmailNotVerified)
                    } else {
                        Ok(clone_account(a))
                    }
                }
            },
        }
    }

    /// Confirms an email: checks the submitted code against the account's
    /// pending one and, exactly on a valid match, durably marks the email
    /// verified. The stale code stays behind, unusable past the flag.
    pub fn verify_email(
        store: &mut AccountStore,
        email: &str,
        code: &str,
        now: i64,
    ) -> (r: Result<(), VerifyEmailError>)
        requires
            old(store).wf(),
        ensures
            final(store).wf(),
            ({
                let idx = find_email_index(old(store).rows(), email@);
                match r {
                    Ok(()) => idx >= 0 && code_check_model(
                        old(store).rows()[idx], code@, now as int) == CodeCheck::Valid && final(
                        store).rows() == old(store).rows().update(idx, AccountData {
                        email_verified: true,
                        ..old(store).rows()[idx]
                    }),
                    Err(e) => {
                        &&& final(store).rows() == old(store).rows()
                        &&& (e is NotFound <==> idx == -1)
                        &&& (e is AlreadyVerified <==> (idx >= 0 && code_check_model(
                            old(store).rows()[idx], code@, now as int)
                            == CodeCheck::AlreadyVerified))
                        &&& (e is NotStarted <==> (idx >= 0 && code_check_model(
                            old(store).rows()[idx], code@, now as int) == CodeCheck::NotStarted))
                        &&& (e is InvalidOrExpired <==> (idx >= 0 && (code_check_model(
                            old(store).rows()[idx], code@, now as int) == CodeCheck::Mismatch
                            || code_check_model(old(store).rows()[idx], code@, now as int)
                            == CodeCheck::Expired)))
                    },
                }
            }),
    {
        let verdict = match store.find_by_email(email) {
            None => {
                return Err(VerifyEmailError::NotFound);
            }
            Some(a) => VerificationCodeManager::check(a, code, now),
        };
        match verdict {
            CodeCheck::AlreadyVerified => Err(VerifyEmailError::AlreadyVerified),
            CodeCheck::NotStarted => Err(VerifyEmailError::NotStarted),
            CodeCheck::Mismatch => Err(VerifyEmailError::InvalidOrExpired),
            CodeCheck::Expired => Err(VerifyEmailError::InvalidOrExpired),
            CodeCheck::Valid => {
                store.set_email_verified(email, true);
                Ok(())
            }
        }
    }

    /// Issues a fresh code for an unverified account and stores it over the
    /// previous one — only the newest code is ever valid. Returns the code
    /// for the caller's email dispatch.
    pub fn resend_verification_code(
        store: &mut AccountStore,
        email: &str,
        now: i64,
    ) -> (r: Result<String, ResendError>)
        requires
            old(store).wf(),
            now <= i64::MAX - 600,
        ensures
            final(store).wf(),
            ({
                let idx = find_email_index(old(store).rows(), email@);
                match r {
                    Ok(c) => idx >= 0 && !old(store).rows()[idx].email_verified && is_code(c@)
                        && final(store).rows() == old(store).rows().update(idx, AccountData {
                        verification_code: Some(c@),
                        verification_code_expires_at: Some(now + 600 as int),
                        ..old(store).rows()[idx]
                    }),
                    Err(e) => {
                        &&& final(store).rows() == old(store).rows()
                        &&& (e is NotFound <==> idx == -1)
                        &&& (e is AlreadyVerified <==> (idx >= 0
                            && old(store).rows()[idx].email_verified))
                    },
                }
            }),
    {
        let verified = match store.find_by_email(email) {
            None => {
                return Err(ResendError::NotFound);
            }
            Some(a) => a.email_verified,
        };
        if verified {
            return Err(ResendError::AlreadyVerified);
        }
        let code = VerificationCodeManager::issue_for(store, email, now);
        Ok(code)
    }
}

} // verus!
