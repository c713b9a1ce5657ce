//! The decoded, verified payload of a session token: identity, display
//! fields, timing, and a role.

use vstd::prelude::*;
use vstd::utf8::{encode_utf8, valid_utf8};

verus! {

/// Coarse authorization tag carried inside a token. Exactly one value.
#[derive(Clone, Copy, Debug, PartialEq, Eq, Structural)]
pub enum Role {
    User,
    Admin,
}

/// Claims carried by a session token. `exp` and `iat` are seconds since the
/// epoch; `jti` is a fresh identifier per issuance; the display fields are a
/// snapshot taken at login time, not a live read.
#[derive(Debug)]
pub struct Claims {
    pub sub: String,
    pub exp: i64,
    pub iat: i64,
    pub jti: String,
    pub email: String,
    pub first_name: String,
    pub last_name: String,
    pub role: Role,
}

/// Mathematical model of `Claims`: every text field as its UTF-8 bytes,
/// timestamps as unbounded integers.
#[verifier::ext_equal]
pub struct ClaimsData {
    pub sub: Seq<u8>,
    pub exp: int,
    pub iat: int,
    pub jti: Seq<u8>,
    pub email: Seq<u8>,
    pub first_name: Seq<u8>,
    pub last_name: Seq<u8>,
    pub role: Role,
}

impl Claims {
    pub open spec fn model(self) -> ClaimsData {
        ClaimsData {
            sub: encode_utf8(self.sub@),
            exp: self.exp as int,
            iat: self.iat as int,
            jti: encode_utf8(self.jti@),
            email: encode_utf8(self.email@),
            first_name: encode_utf8(self.first_name@),
            last_name: encode_utf8(self.last_name@),
            role: self.role,
        }
    }
}

/// What a token may carry: timestamps nonnegative and within `i64`, text
/// fields that are UTF-8 images of strings.
pub open spec fn claims_wf(c: ClaimsData) -> bool {
    &&& 0 <= c.exp <= i64::MAX
    &&& 0 <= c.iat <= i64::MAX
    &&& valid_utf8(c.sub)
    &&& valid_utf8(c.jti)
    &&& valid_utf8(c.email)
    &&& valid_utf8(c.first_name)
    &&& valid_utf8(c.last_name)
}

/// The model of an executable `Claims` value is always well formed once its
/// timestamps are in range.
pub broadcast proof fn lemma_claims_model_wf(c: Claims)
    requires
        0 <= c.exp,
        0 <= c.iat,
    ensures
        claims_wf(#[trigger] c.model()),
{
    broadcast use vstd::utf8::encode_utf8_valid_utf8;

}

/// Relies on `String::from_utf8`: it succeeds exactly on valid UTF-8 input
/// and returns the string whose bytes are that input.
#[verifier::external_body]
pub(crate) fn bytes_to_string(v: Vec<u8>) -> (r: Option<String>)
    ensures
        r matches Some(s) ==> encode_utf8(s@) == v@,
        valid_utf8(v@) ==> r is Some,
{
    String::from_utf8(v).ok()
}

} // verus!
