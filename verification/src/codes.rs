//! Email verification codes: six uniformly random decimal digits, a
//! ten-minute window, and a check that consults the verified flag first.

use rand::Rng;
use vstd::prelude::*;
use vstd::utf8::{encode_utf8, encode_utf8_decode_utf8};
use crate::account::{find_email_index, Account, AccountData, AccountStore};
use crate::claims::bytes_to_string;
use crate::strutil::{lemma_ascii_valid_utf8, str_eq};

verus! {

/// The six zero-padded decimal digits of a number below one million.
pub open spec fn code_digits(n: nat) -> Seq<char> {
    seq![
        (48 + (n / 100000) % 10) as char,
        (48 + (n / 10000) % 10) as char,
        (48 + (n / 1000) % 10) as char,
        (48 + (n / 100) % 10) as char,
        (48 + (n / 10) % 10) as char,
        (48 + n % 10) as char,
    ]
}

/// A code in stored form: exactly six ASCII digits.
pub open spec fn is_code(s: Seq<char>) -> bool {
    s.len() == 6 && forall|i: int| 0 <= i < 6 ==> '0' <= #[trigger] s[i] <= '9'
}

/// Relies on rand's `random_range`: a value drawn uniformly from the given
/// range, independent across calls. Only the bound is assumed.
#[verifier::external_body]
fn random_below_million() -> (r: u64)
    ensures
        r < 1000000,
{
    rand::rng().random_range(0..1_000_000u64)
}

/// Draws a fresh six-digit verification code, uniformly at random.
pub fn generate_verification_code() -> (r: String)
    ensures
        is_code(r@),
        exists|n: nat| n < 1000000 && r@ == code_digits(n),
{
    let n = random_below_million();
    let mut v: Vec<u8> = Vec::new();
    v.push(48 + ((n / 100000) % 10) as u8);
    v.push(48 + ((n / 10000) % 10) as u8);
    v.push(48 + ((n / 1000) % 10) as u8);
    v.push(48 + ((n / 100) % 10) as u8);
    v.push(48 + ((n / 10) % 10) as u8);
    v.push(48 + (n % 10) as u8);
    proof {
        assert(forall|i: int| 0 <= i < v@.len() ==> v@[i] < 128);
        lemma_ascii_valid_utf8(v@);
    }
    match bytes_to_string(v) {
        Some(s) => {
            proof {
                encode_utf8_decode_utf8(s@);
                assert(s@ =~= code_digits(n as nat));
            }
            s
        }
        None => {
            proof {
                assert(false);
            }
            String::new()
        }
    }
}

/// The verdict on a submitted code.
#[derive(Clone, Copy, Debug, PartialEq, Eq, Structural)]
pub enum CodeCheck {
    Valid,
    Expired,
    Mismatch,
    NotStarted,
    AlreadyVerified,
}

/// What checking a code against an account's state answers: a verified
/// account is never re-checked; with no pending code nothing was started;
/// otherwise the code must match exactly and the moment must lie strictly
/// before the stored expiry.
pub open spec fn code_check_model(a: AccountData, submitted: Seq<char>, now: int) -> CodeCheck {
    if a.email_verified {
        CodeCheck::AlreadyVerified
    } else {
        match (a.verification_code, a.verification_code_expires_at) {
            (Some(c), Some(e)) => if c != submitted {
                CodeCheck::Mismatch
            } else if now >= e {
                CodeCheck::Expired
            } else {
                CodeCheck::Valid
            },
            _ => CodeCheck::NotStarted,
        }
    }
}

/// Generates, stores, validates and rotates the short-lived codes that
/// confirm account email ownership.
pub struct VerificationCodeManager {}

impl VerificationCodeManager {
    /// A fresh code.
    pub fn generate() -> (r: String)
        ensures
            is_code(r@),
    {
        generate_verification_code()
    }

    /// Checks a submitted code against an account at the given moment.
    pub fn check(account: &Account, submitted: &str, now: i64) -> (r: CodeCheck)
        ensures
            r == code_check_model(account.model(), submitted@, now as int),
    {
        if account.email_verified {
            return CodeCheck::AlreadyVerified;
        }
        match (&account.verification_code, &account.verification_code_expires_at) {
            (Some(c), Some(e)) => {
                if !str_eq(c.as_str(), submitted) {
                    CodeCheck::Mismatch
                } else if now >= *e {
                    CodeCheck::Expired
                } else {
                    CodeCheck::Valid
                }
            }
            _ => CodeCheck::NotStarted,
        }
    }

    /// Draws a fresh code and stores it, with expiry ten minutes out, on the
    /// account with the given email: one single-row update, last write wins.
    pub fn issue_for(store: &mut AccountStore, email: &str, now: i64) -> (r: String)
        requires
            old(store).wf(),
            now <= i64::MAX - 600,
        ensures
            final(store).wf(),
            is_code(r@),
            ({
                let idx = find_email_index(old(store).rows(), email@);
                if idx >= 0 {
                    final(store).rows() == old(store).rows().update(idx, AccountData {
                        verification_code: Some(r@),
                        verification_code_expires_at: Some(now + 600),
                        ..old(store).rows()[idx]
                    })
                } else {
                    final(store).rows() == old(store).rows()
                }
            }),
    {
        let code = generate_verification_code();
        store.update_verification_code(email, code.as_str(), now + 600);
        code
    }
}

/// The verdicts of the code check, spelled out: the stored code is accepted
/// exactly once as valid before its expiry, the same code is expired from
/// the expiry on, any other code mismatches, and a verified account is
/// never re-checked.
pub proof fn lemma_code_check_verdicts(a: AccountData, submitted: Seq<char>, now: int)
    ensures
        a.email_verified ==> code_check_model(a, submitted, now) == CodeCheck::AlreadyVerified,
        (!a.email_verified && a.verification_code == Some(submitted)
            && (a.verification_code_expires_at matches Some(e) && now < e)) ==> code_check_model(
            a, submitted, now) == CodeCheck::Valid,
        (!a.email_verified && a.verification_code == Some(submitted)
            && (a.verification_code_expires_at matches Some(e) && now >= e)) ==> code_check_model(
            a, submitted, now) == CodeCheck::Expired,
        (!a.email_verified && (a.verification_code matches Some(c) && c != submitted)
            && a.verification_code_expires_at is Some) ==> code_check_model(a, submitted, now)
            == CodeCheck::Mismatch,
{
}

/// Rotating the code invalidates the one before it: after a resend stores a
/// fresh code, checking any different previous code mismatches, whatever the
/// time. (A fresh draw can collide with the old code; the claim holds for
/// every draw that differs.)
pub proof fn lemma_resend_invalidates_old_code(
    a: AccountData,
    new_code: Seq<char>,
    old_code: Seq<char>,
    now: int,
    then: int,
)
    requires
        !a.email_verified,
        old_code != new_code,
    ensures
        code_check_model(
            AccountData {
                verification_code: Some(new_code),
                verification_code_expires_at: Some(now + 600),
                ..a
            },
            old_code,
            then,
        ) == CodeCheck::Mismatch,
{
}

} // verus!
