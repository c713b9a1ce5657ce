//! Accounts as one tagged entity, the in-memory account directory that
//! models the record store, and one-way credential hashing.

use vstd::prelude::*;
use vstd::utf8::encode_utf8;
use crate::claims::Role;
use crate::strutil::str_eq;

verus! {

/// One account: an ordinary user or an administrator, told apart by `role`.
/// `email_verified` is meaningful for users; administrators are trusted as
/// created. Timestamps are seconds since the epoch.
#[derive(Debug)]
pub struct Account {
    pub id: Option<String>,
    pub first_name: String,
    pub last_name: String,
    pub email: String,
    pub phone_number: String,
    pub password_hash: String,
    pub role: Role,
    pub profile_picture: Option<String>,
    pub is_active: bool,
    pub bio: Option<String>,
    pub email_verified: bool,
    pub phone_verified: bool,
    pub verification_code: Option<String>,
    pub verification_code_expires_at: Option<i64>,
    pub created_at: i64,
    pub updated_at: i64,
}

/// Mathematical model of an account: text as character sequences, times as
/// unbounded integers.
#[verifier::ext_equal]
pub struct AccountData {
    pub id: Option<Seq<char>>,
    pub first_name: Seq<char>,
    pub last_name: Seq<char>,
    pub email: Seq<char>,
    pub phone_number: Seq<char>,
    pub password_hash: Seq<char>,
    pub role: Role,
    pub profile_picture: Option<Seq<char>>,
    pub is_active: bool,
    pub bio: Option<Seq<char>>,
    pub email_verified: bool,
    pub phone_verified: bool,
    pub verification_code: Option<Seq<char>>,
    pub verification_code_expires_at: Option<int>,
    pub created_at: int,
    pub updated_at: int,
}

impl Account {
    pub open spec fn model(self) -> AccountData {
        AccountData {
            id: match self.id {
                Some(s) => Some(s@),
                None => None,
            },
            first_name: self.first_name@,
            last_name: self.last_name@,
            email: self.email@,
            phone_number: self.phone_number@,
            password_hash: self.password_hash@,
            role: self.role,
            profile_picture: match self.profile_picture {
                Some(s) => Some(s@),
                None => None,
            },
            is_active: self.is_active,
            bio: match self.bio {
                Some(s) => Some(s@),
                None => None,
            },
            email_verified: self.email_verified,
            phone_verified: self.phone_verified,
            verification_code: match self.verification_code {
                Some(s) => Some(s@),
                None => None,
            },
            verification_code_expires_at: match self.verification_code_expires_at {
                Some(t) => Some(t as int),
                None => None,
            },
            created_at: self.created_at as int,
            updated_at: self.updated_at as int,
        }
    }

    /// A fresh, unverified user account with no pending code.
    pub fn new(
        first_name: String,
        last_name: String,
        email: String,
        phone_number: String,
        password_hash: String,
        now: i64,
    ) -> (r: Account)
        ensures
            r.model() == (AccountData {
                id: None,
                first_name: first_name@,
                last_name: last_name@,
                email: email@,
                phone_number: phone_number@,
                password_hash: password_hash@,
                role: Role::User,
                profile_picture: None,
                is_active: true,
                bio: None,
                email_verified: false,
                phone_verified: false,
                verification_code: None,
                verification_code_expires_at: None,
                created_at: now as int,
                updated_at: now as int,
            }),
    {
        let r = Account {
            id: None,
            first_name,
            last_name,
            email,
            phone_number,
            password_hash,
            role: Role::User,
            profile_picture: None,
            is_active: true,
            bio: None,
            email_verified: false,
            phone_verified: false,
            verification_code: None,
            verification_code_expires_at: None,
            created_at: now,
            updated_at: now,
        };
        proof {
            assert(r.model() =~= AccountData {
                id: None,
                first_name: r.first_name@,
                last_name: r.last_name@,
                email: r.email@,
                phone_number: r.phone_number@,
                password_hash: r.password_hash@,
                role: Role::User,
                profile_picture: None,
                is_active: true,
                bio: None,
                email_verified: false,
                phone_verified: false,
                verification_code: None,
                verification_code_expires_at: None,
                created_at: now as int,
                updated_at: now as int,
            });
        }
        r
    }
}

fn clone_opt_string(s: &Option<String>) -> (r: Option<String>)
    ensures
        match (r, s) {
            (Some(a), Some(b)) => a@ == b@,
            (None, None) => true,
            _ => false,
        },
{
    match s {
        Some(x) => Some(x.as_str().to_owned()),
        None => None,
    }
}

/// A field-for-field copy of an account.
pub fn clone_account(a: &Account) -> (r: Account)
    ensures
        r.model() == a.model(),
{
    let r = Account {
        id: clone_opt_string(&a.id),
        first_name: a.first_name.as_str().to_owned(),
        last_name: a.last_name.as_str().to_owned(),
        email: a.email.as_str().to_owned(),
        phone_number: a.phone_number.as_str().to_owned(),
        password_hash: a.password_hash.as_str().to_owned(),
        role: a.role,
        profile_picture: clone_opt_string(&a.profile_picture),
        is_active: a.is_active,
        bio: clone_opt_string(&a.bio),
        email_verified: a.email_verified,
        phone_verified: a.phone_verified,
        verification_code: clone_opt_string(&a.verification_code),
        verification_code_expires_at: match &a.verification_code_expires_at {
            Some(t) => Some(*t),
            None => None,
        },
        created_at: a.created_at,
        updated_at: a.updated_at,
    };
    proof {
        assert(r.model() =~= a.model());
    }
    r
}

/// Index of the first row with the given email, or `-1`.
pub open spec fn find_email_index(rows: Seq<AccountData>, email: Seq<char>) -> int
    decreases rows.len(),
{
    if rows.len() == 0 {
        -1
    } else if rows[0].email == email {
        0
    } else {
        let r = find_email_index(rows.skip(1), email);
        if r < 0 {
            -1
        } else {
            r + 1
        }
    }
}

/// Index of the first row with the given phone number, or `-1`.
pub open spec fn find_phone_index(rows: Seq<AccountData>, phone: Seq<char>) -> int
    decreases rows.len(),
{
    if rows.len() == 0 {
        -1
    } else if rows[0].phone_number == phone {
        0
    } else {
        let r = find_phone_index(rows.skip(1), phone);
        if r < 0 {
            -1
        } else {
            r + 1
        }
    }
}

/// Where the recursive first-match search stands after a clean prefix.
proof fn lemma_find_email_skip(rows: Seq<AccountData>, email: Seq<char>, i: int)
    requires
        0 <= i <= rows.len(),
        forall|j: int| 0 <= j < i ==> rows[j].email != email,
    ensures
        find_email_index(rows, email) == ({
            let r = find_email_index(rows.skip(i), email);
            if r < 0 {
                -1int
            } else {
                r + i
            }
        }),
    decreases i,
{
    if i > 0 {
        assert(rows.len() > 0);
        assert(rows[0].email != email);
        assert(rows.skip(1).skip(i - 1) =~= rows.skip(i));
        lemma_find_email_skip(rows.skip(1), email, i - 1);
    } else {
        assert(rows.skip(0) =~= rows);
    }
}

proof fn lemma_find_phone_skip(rows: Seq<AccountData>, phone: Seq<char>, i: int)
    requires
        0 <= i <= rows.len(),
        forall|j: int| 0 <= j < i ==> rows[j].phone_number != phone,
    ensures
        find_phone_index(rows, phone) == ({
            let r = find_phone_index(rows.skip(i), phone);
            if r < 0 {
                -1int
            } else {
                r + i
            }
        }),
    decreases i,
{
    if i > 0 {
        assert(rows.len() > 0);
        assert(rows[0].phone_number != phone);
        assert(rows.skip(1).skip(i - 1) =~= rows.skip(i));
        lemma_find_phone_skip(rows.skip(1), phone, i - 1);
    } else {
        assert(rows.skip(0) =~= rows);
    }
}

/// Basic facts about the first-match search.
pub proof fn lemma_find_email_props(rows: Seq<AccountData>, email: Seq<char>)
    ensures
        find_email_index(rows, email) >= 0 ==> find_email_index(rows, email) < rows.len()
            && rows[find_email_index(rows, email)].email == email,
        find_email_index(rows, email) == -1 ==> forall|j: int|
            0 <= j < rows.len() ==> rows[j].email != email,
        find_email_index(rows, email) >= 0 || find_email_index(rows, email) == -1,
    decreases rows.len(),
{
    if rows.len() > 0 && rows[0].email != email {
        lemma_find_email_props(rows.skip(1), email);
        let r = find_email_index(rows.skip(1), email);
        if r >= 0 {
            assert(rows.skip(1)[r] == rows[r + 1]);
        } else {
            assert forall|j: int| 0 <= j < rows.len() implies rows[j].email != email by {
                if j > 0 {
                    assert(rows.skip(1)[j - 1] == rows[j]);
                }
            }
        }
    }
}

/// The record store's account collection, modelled in memory: a list of
/// accounts with pairwise distinct emails.
pub struct AccountStore {
    accounts: Vec<Account>,
}

impl AccountStore {
    /// The rows, as models.
    pub closed spec fn rows(self) -> Seq<AccountData> {
        self.accounts@.map(|i: int, a: Account| a.model())
    }

    /// The store invariant: the email is a key.
    pub open spec fn wf(self) -> bool {
        forall|i: int, j: int|
            0 <= i < j < self.rows().len() ==> (#[trigger] self.rows()[i]).email
                != (#[trigger] self.rows()[j]).email
    }

    /// An empty directory.
    pub fn new() -> (r: AccountStore)
        ensures
            r.wf(),
            r.rows() == Seq::<AccountData>::empty(),
    {
        let r = AccountStore { accounts: Vec::new() };
        proof {
            assert(r.rows() =~= Seq::<AccountData>::empty());
        }
        r
    }

    /// Looks an account up by its email.
    pub fn find_by_email(&self, email: &str) -> (r: Option<&Account>)
        ensures
            match r {
                Some(a) => find_email_index(self.rows(), email@) >= 0 && a.model()
                    == self.rows()[find_email_index(self.rows(), email@)],
                None => find_email_index(self.rows(), email@) == -1,
            },
    {
        let n = self.accounts.len();
        let mut i: usize = 0;
        while i < n
            invariant
                i <= n == self.rows().len(),
                forall|j: int| 0 <= j < i ==> (#[trigger] self.rows()[j]).email != email@,
            decreases n - i,
        {
            if str_eq(self.accounts[i].email.as_str(), email) {
                proof {
                    lemma_find_email_skip(self.rows(), email@, i as int);
                    assert(self.rows().skip(i as int)[0] == self.rows()[i as int]);
                    assert(find_email_index(self.rows().skip(i as int), email@) == 0);
                }
                return Some(&self.accounts[i]);
            }
            i = i + 1;
        }
        proof {
            lemma_find_email_skip(self.rows(), email@, n as int);
            assert(self.rows().skip(n as int).len() == 0);
        }
        None
    }

    /// Looks an account up by its phone number.
    pub fn find_by_phone(&self, phone: &str) -> (r: Option<&Account>)
        ensures
            match r {
                Some(a) => find_phone_index(self.rows(), phone@) >= 0 && a.model()
                    == self.rows()[find_phone_index(self.rows(), phone@)],
                None => find_phone_index(self.rows(), phone@) == -1,
            },
    {
        let n = self.accounts.len();
        let mut i: usize = 0;
        while i < n
            invariant
                i <= n == self.rows().len(),
                forall|j: int| 0 <= j < i ==> (#[trigger] self.rows()[j]).phone_number != phone@,
            decreases n - i,
        {
            if str_eq(self.accounts[i].phone_number.as_str(), phone) {
                proof {
                    lemma_find_phone_skip(self.rows(), phone@, i as int);
                    assert(self.rows().skip(i as int)[0] == self.rows()[i as int]);
                    assert(find_phone_index(self.rows().skip(i as int), phone@) == 0);
                }
                return Some(&self.accounts[i]);
            }
            i = i + 1;
        }
        proof {
            lemma_find_phone_skip(self.rows(), phone@, n as int);
            assert(self.rows().skip(n as int).len() == 0);
        }
        None
    }

    /// Adds an account under an email not yet present.
    pub fn insert(&mut self, account: Account)
        requires
            old(self).wf(),
            find_email_index(old(self).rows(), account.email@) == -1,
        ensures
            final(self).wf(),
            final(self).rows() == old(self).rows().push(account.model()),
    {
        let ghost oldrows = self.rows();
        let ghost m = account.model();
        self.accounts.push(account);
        proof {
            assert(self.rows() =~= oldrows.push(m));
            lemma_find_email_props(oldrows, m.email);
            assert forall|i: int, j: int| 0 <= i < j < self.rows().len() implies (
                #[trigger] self.rows()[i]).email != (#[trigger] self.rows()[j]).email by {
                if j == self.rows().len() - 1 {
                    assert(self.rows()[i] == oldrows[i]);
                }
            }
        }
    }

    /// Sets the email-verified flag of the account with the given email, if
    /// it exists; touches nothing else.
    pub fn set_email_verified(&mut self, email: &str, value: bool)
        requires
            old(self).wf(),
        ensures
            final(self).wf(),
            ({
                let idx = find_email_index(old(self).rows(), email@);
                if idx >= 0 {
                    final(self).rows() == old(self).rows().update(idx, AccountData {
                        email_verified: value,
                        ..old(self).rows()[idx]
                    })
                } else {
                    final(self).rows() == old(self).rows()
                }
            }),
    {
        let ghost oldrows = self.rows();
        let n = self.accounts.len();
        let mut i: usize = 0;
        while i < n
            invariant
                i <= n == self.rows().len(),
                self.rows() == oldrows,
                old(self).rows() == oldrows,
                old(self).wf(),
                forall|j: int| 0 <= j < i ==> (#[trigger] self.rows()[j]).email != email@,
            decreases n - i,
        {
            if str_eq(self.accounts[i].email.as_str(), email) {
                proof {
                    lemma_find_email_skip(oldrows, email@, i as int);
                    assert(oldrows.skip(i as int)[0] == oldrows[i as int]);
                    assert(find_email_index(oldrows.skip(i as int), email@) == 0);
                }
                self.accounts[i].email_verified = value;
                proof {
                    let updated = AccountData { email_verified: value, ..oldrows[i as int] };
                    assert(self.accounts@[i as int].model() =~= updated);
                    assert forall|j: int| 0 <= j < self.rows().len() implies self.rows()[j]
                        == oldrows.update(i as int, updated)[j] by {
                        assert(self.rows()[j] == self.accounts@[j].model());
                    }
                    assert(self.rows() =~= oldrows.update(i as int, updated));
                    assert forall|a: int, b: int| 0 <= a < b < self.rows().len() implies (
                        #[trigger] self.rows()[a]).email != (#[trigger] self.rows()[b]).email by {
                        if a == i as int {
                            assert(self.rows()[a].email == oldrows[a].email);
                        } else {
                            assert(self.rows()[a] == oldrows[a]);
                        }
                        if b == i as int {
                            assert(self.rows()[b].email == oldrows[b].email);
                        } else {
                            assert(self.rows()[b] == oldrows[b]);
                        }
                        assert(old(self).wf());
                        assert(oldrows[a].email != oldrows[b].email);
                    }
                    assert(find_email_index(oldrows, email@) == i as int);
                }
                return ;
            }
            i = i + 1;
        }
        proof {
            lemma_find_email_skip(oldrows, email@, n as int);
            assert(oldrows.skip(n as int).len() == 0);
        }
    }

    /// Stores a fresh verification code and its expiry on the account with
    /// the given email, if it exists; touches nothing else.
    pub fn update_verification_code(&mut self, email: &str, code: &str, expires_at: i64)
        requires
            old(self).wf(),
        ensures
            final(self).wf(),
            ({
                let idx = find_email_index(old(self).rows(), email@);
                if idx >= 0 {
                    final(self).rows() == old(self).rows().update(idx, AccountData {
                        verification_code: Some(code@),
                        verification_code_expires_at: Some(expires_at as int),
                        ..old(self).rows()[idx]
                    })
                } else {
                    final(self).rows() == old(self).rows()
                }
            }),
    {
        let ghost oldrows = self.rows();
        let n = self.accounts.len();
        let mut i: usize = 0;
        while i < n
            invariant
                i <= n == self.rows().len(),
                self.rows() == oldrows,
                old(self).rows() == oldrows,
                old(self).wf(),
                forall|j: int| 0 <= j < i ==> (#[trigger] self.rows()[j]).email != email@,
            decreases n - i,
        {
            if str_eq(self.accounts[i].email.as_str(), email) {
                proof {
                    lemma_find_email_skip(oldrows, email@, i as int);
                    assert(oldrows.skip(i as int)[0] == oldrows[i as int]);
                    assert(find_email_index(oldrows.skip(i as int), email@) == 0);
                }
                self.accounts[i].verification_code = Some(code.to_owned());
                self.accounts[i].verification_code_expires_at = Some(expires_at);
                proof {
                    let updated = AccountData {
                        verification_code: Some(code@),
                        verification_code_expires_at: Some(expires_at as int),
                        ..oldrows[i as int]
                    };
                    assert(self.accounts@[i as int].model() =~= updated);
                    assert forall|j: int| 0 <= j < self.rows().len() implies self.rows()[j]
                        == oldrows.update(i as int, updated)[j] by {
                        assert(self.rows()[j] == self.accounts@[j].model());
                    }
                    assert(self.rows() =~= oldrows.update(i as int, updated));
                    assert forall|a: int, b: int| 0 <= a < b < self.rows().len() implies (
                        #[trigger] self.rows()[a]).email != (#[trigger] self.rows()[b]).email by {
                        if a == i as int {
                            assert(self.rows()[a].email == oldrows[a].email);
                        } else {
                            assert(self.rows()[a] == oldrows[a]);
                        }
                        if b == i as int {
                            assert(self.rows()[b].email == oldrows[b].email);
                        } else {
                            assert(self.rows()[b] == oldrows[b]);
                        }
                        assert(old(self).wf());
                        assert(oldrows[a].email != oldrows[b].email);
                    }
                    assert(find_email_index(oldrows, email@) == i as int);
                }
                return ;
            }
            i = i + 1;
        }
        proof {
            lemma_find_email_skip(oldrows, email@, n as int);
            assert(oldrows.skip(n as int).len() == 0);
        }
    }

    /// Removes the account with the given email, if it exists. A diagnostic
    /// path, not part of the production lifecycle.
    pub fn delete_by_email(&mut self, email: &str)
        requires
            old(self).wf(),
        ensures
            final(self).wf(),
            ({
                let idx = find_email_index(old(self).rows(), email@);
                if idx >= 0 {
                    final(self).rows() == old(self).rows().remove(idx)
                } else {
                    final(self).rows() == old(self).rows()
                }
            }),
    {
        let ghost oldrows = self.rows();
        let n = self.accounts.len();
        let mut i: usize = 0;
        while i < n
            invariant
                i <= n == self.rows().len(),
                self.rows() == oldrows,
                old(self).rows() == oldrows,
                old(self).wf(),
                forall|j: int| 0 <= j < i ==> (#[trigger] self.rows()[j]).email != email@,
            decreases n - i,
        {
            if str_eq(self.accounts[i].email.as_str(), email) {
                proof {
                    lemma_find_email_skip(oldrows, email@, i as int);
                    assert(oldrows.skip(i as int)[0] == oldrows[i as int]);
                    assert(find_email_index(oldrows.skip(i as int), email@) == 0);
                }
                self.accounts.remove(i);
                proof {
                    assert forall|j: int| 0 <= j < self.rows().len() implies self.rows()[j]
                        == oldrows.remove(i as int)[j] by {
                        assert(self.rows()[j] == self.accounts@[j].model());
                        if j < i {
                            assert(oldrows.remove(i as int)[j] == oldrows[j]);
                        } else {
                            assert(oldrows.remove(i as int)[j] == oldrows[j + 1]);
                        }
                    }
                    assert(self.rows() =~= oldrows.remove(i as int));
                    assert forall|a: int, b: int| 0 <= a < b < self.rows().len() implies (
                        #[trigger] self.rows()[a]).email != (#[trigger] self.rows()[b]).email by {
                        let a0: int = if a < i { a } else { a + 1 };
                        let b0: int = if b < i { b } else { b + 1 };
                        assert(self.rows()[a].email == oldrows[a0].email);
                        assert(self.rows()[b].email == oldrows[b0].email);
                    }
                }
                return ;
            }
            i = i + 1;
        }
        proof {
            lemma_find_email_skip(oldrows, email@, n as int);
            assert(oldrows.skip(n as int).len() == 0);
        }
    }
}

/// What `bcrypt::verify` answers for a password against a digest: a verdict,
/// or nothing when the digest is malformed. Fixed by the two arguments.
pub uninterp spec fn bcrypt_verdict(password: Seq<u8>, digest: Seq<char>) -> Option<bool>;

/// Relies on `bcrypt::verify`: deterministic in password and digest, it
/// errs exactly on digests it cannot parse.
#[verifier::external_body]
fn bcrypt_verify_raw(password: &[u8], digest: &str) -> (r: Option<bool>)
    ensures
        r == bcrypt_verdict(password@, digest@),
{
    bcrypt::verify(password, digest).ok()
}

/// Relies on `bcrypt::hash` with the crate's default cost: each digest it
/// produces is salted, well formed, and accepted by `bcrypt::verify` against
/// the same password.
#[verifier::external_body]
fn bcrypt_hash_raw(password: &[u8]) -> (r: Option<String>)
    ensures
        r matches Some(h) ==> bcrypt_verdict(password@, h@) == Some(true),
{
    bcrypt::hash(password, bcrypt::DEFAULT_COST).ok()
}

/// Why a password could not be hashed.
#[derive(Clone, Copy, Debug, PartialEq, Eq, Structural)]
pub enum CredentialError {
    HashFailed,
}

impl CredentialError {
    /// The reason in the words callers show.
    pub fn message(&self) -> (r: String)
        ensures
            r@ == "Password hashing error"@,
    {
        "Password hashing error".to_owned()
    }
}

/// One-way password hashing and verification, delegated to bcrypt: salted,
/// computationally expensive, and compared without an early exit.
pub struct CredentialHasher {}

impl CredentialHasher {
    /// Hashes a password into a fresh salted digest that `verify` accepts.
    pub fn hash(password: &str) -> (r: Result<String, CredentialError>)
        ensures
            r matches Ok(h) ==> bcrypt_verdict(encode_utf8(password@), h@) == Some(true),
    {
        match bcrypt_hash_raw(password.as_bytes()) {
            Some(h) => Ok(h),
            None => Err(CredentialError::HashFailed),
        }
    }


    /// The raw verdict on a password against a digest: a match, a mismatch,
    /// or nothing when the digest is malformed.
    pub fn check(password: &str, digest: &str) -> (r: Option<bool>)
        ensures
            r == bcrypt_verdict(encode_utf8(password@), digest@),
    {
        bcrypt_verify_raw(password.as_bytes(), digest)
    }

    /// Checks a password against a stored digest. A digest that cannot be
    /// parsed counts as a failed verification, never as an error.
    pub fn verify(password: &str, digest: &str) -> (r: bool)
        ensures
            r == (bcrypt_verdict(encode_utf8(password@), digest@) == Some(true)),
    {
        match bcrypt_verify_raw(password.as_bytes(), digest) {
            Some(b) => b,
            None => false,
        }
    }
}

} // verus!
