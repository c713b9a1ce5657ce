//! Session tokens: compact signed credentials in the JWT HS256 form. The
//! token text and its verification are specified byte for byte; the HMAC tag
//! itself comes from the `jsonwebtoken` crate behind trusted calls.

use vstd::prelude::*;
use vstd::utf8::encode_utf8;
use crate::b64::{b64u_enc, b64u_dec, b64u_encode, b64u_decode, lemma_enc_shape, lemma_enc_inj,
    lemma_dec_enc, lemma_dec_some};
use crate::claims::{bytes_to_string, claims_wf, lemma_claims_model_wf, Claims, ClaimsData, Role};
use crate::jsonc::{claims_json, lemma_claims_json_inj, parse_claims, write_claims_json};
use crate::strutil::{bytes_eq, lemma_ascii_valid_utf8};

verus! {

/// The fixed token header text, as the `jsonwebtoken` crate writes it for
/// its default header.
pub open spec fn header_json() -> Seq<u8> {
    // `{"typ":"JWT","alg":"HS256"}`
    seq![123u8, 34u8, 116u8, 121u8, 112u8, 34u8, 58u8, 34u8, 74u8, 87u8, 84u8, 34u8, 44u8, 34u8, 97u8, 108u8, 103u8, 34u8, 58u8, 34u8, 72u8, 83u8, 50u8, 53u8, 54u8, 34u8, 125u8]
}

fn header_bytes() -> (r: Vec<u8>)
    ensures
        r@ == header_json(),
{
    let mut v: Vec<u8> = Vec::new();
    v.push(123);
    v.push(34);
    v.push(116);
    v.push(121);
    v.push(112);
    v.push(34);
    v.push(58);
    v.push(34);
    v.push(74);
    v.push(87);
    v.push(84);
    v.push(34);
    v.push(44);
    v.push(34);
    v.push(97);
    v.push(108);
    v.push(103);
    v.push(34);
    v.push(58);
    v.push(34);
    v.push(72);
    v.push(83);
    v.push(50);
    v.push(53);
    v.push(54);
    v.push(34);
    v.push(125);
    assert(v@ =~= header_json());
    v
}

/// The HMAC-SHA256 tag of a message under a key. Its value is fixed by the
/// two arguments; nothing else is assumed of it.
pub uninterp spec fn hmac256(key: Seq<u8>, msg: Seq<u8>) -> Seq<u8>;

/// Relies on `jsonwebtoken::crypto::sign` with HS256: for an HMAC algorithm
/// it always succeeds and returns the url-safe unpadded base64 text of the
/// HMAC-SHA256 tag of the message under the secret.
#[verifier::external_body]
fn sign_hs256(secret: &[u8], msg: &[u8]) -> (r: Vec<u8>)
    ensures
        r@ == b64u_enc(hmac256(secret@, msg@)),
{
    let key = jsonwebtoken::EncodingKey::from_secret(secret);
    match jsonwebtoken::crypto::sign(msg, &key, jsonwebtoken::Algorithm::HS256) {
        Ok(s) => s.into_bytes(),
        Err(_) => Vec::new(),
    }
}

/// Relies on `jsonwebtoken::crypto::verify` with HS256: it re-signs the
/// message and compares the given signature text with the recomputed base64
/// text byte for byte, in constant time.
#[verifier::external_body]
fn verify_hs256(secret: &[u8], sig: &[u8], msg: &[u8]) -> (r: bool)
    ensures
        r == (sig@ == b64u_enc(hmac256(secret@, msg@))),
{
    match core::str::from_utf8(sig) {
        Ok(s) => {
            let key = jsonwebtoken::DecodingKey::from_secret(secret);
            jsonwebtoken::crypto::verify(s, msg, &key, jsonwebtoken::Algorithm::HS256)
                .unwrap_or(false)
        }
        Err(_) => false,
    }
}

/// What a token signature signs: the encoded header, a dot, the encoded
/// payload.
pub open spec fn signing_input(c: ClaimsData) -> Seq<u8> {
    b64u_enc(header_json()) + seq![46u8] + b64u_enc(claims_json(c))
}

/// The full token text for a set of claims under a key.
pub open spec fn token_bytes(key: Seq<u8>, c: ClaimsData) -> Seq<u8> {
    signing_input(c) + seq![46u8] + b64u_enc(hmac256(key, signing_input(c)))
}

/// Why a token is rejected. Nothing of the token is handed out on failure.
#[derive(Clone, Copy, Debug, PartialEq, Eq, Structural)]
pub enum TokenError {
    Invalid,
    Expired,
}

/// What verification returns for any token text: the claims of the one
/// well-formed token it spells, if it is not yet expired.
pub open spec fn verify_model(key: Seq<u8>, t: Seq<u8>, now: int) -> Result<ClaimsData, TokenError> {
    if exists|c: ClaimsData| claims_wf(c) && t == token_bytes(key, c) {
        let c = choose|c: ClaimsData| claims_wf(c) && t == token_bytes(key, c);
        if now < c.exp {
            Ok(c)
        } else {
            Err(TokenError::Expired)
        }
    } else {
        Err(TokenError::Invalid)
    }
}

/// Shape of a token text: the two dots stand exactly between the three
/// base64 segments, and nowhere else.
pub proof fn lemma_token_structure(key: Seq<u8>, c: ClaimsData)
    ensures
        ({
            let h = b64u_enc(header_json());
            let p = b64u_enc(claims_json(c));
            let g = b64u_enc(hmac256(key, signing_input(c)));
            let t = token_bytes(key, c);
            let d1 = h.len() as int;
            let d2 = h.len() + 1 + p.len() as int;
            &&& t.len() == h.len() + 1 + p.len() + 1 + g.len()
            &&& t[d1] == 46 && t[d2] == 46
            &&& t.subrange(0, d1) == h
            &&& t.subrange(d1 + 1, d2) == p
            &&& t.subrange(d2 + 1, t.len() as int) == g
            &&& t.subrange(0, d2) == signing_input(c)
            &&& forall|i: int| 0 <= i < t.len() && i != d1 && i != d2 ==> t[i] != 46
            &&& forall|i: int| 0 <= i < t.len() ==> t[i] < 128
        }),
{
    let h = b64u_enc(header_json());
    let p = b64u_enc(claims_json(c));
    let g = b64u_enc(hmac256(key, signing_input(c)));
    let t = token_bytes(key, c);
    lemma_enc_shape(header_json());
    lemma_enc_shape(claims_json(c));
    lemma_enc_shape(hmac256(key, signing_input(c)));
    let d1 = h.len() as int;
    let d2 = h.len() + 1 + p.len() as int;
    assert(t.subrange(0, d1) =~= h);
    assert(t.subrange(d1 + 1, d2) =~= p);
    assert(t.subrange(d2 + 1, t.len() as int) =~= g);
    assert(t.subrange(0, d2) =~= signing_input(c));
    assert forall|i: int| 0 <= i < t.len() && i != d1 && i != d2 implies t[i] != 46 by {
        if i < d1 {
            assert(t[i] == h[i]);
        } else if i < d2 {
            assert(t[i] == p[i - d1 - 1]);
        } else {
            assert(t[i] == g[i - d2 - 1]);
        }
    }
    assert forall|i: int| 0 <= i < t.len() implies t[i] < 128 by {
        if i < d1 {
            assert(t[i] == h[i]);
        } else if i == d1 || i == d2 {
        } else if i < d2 {
            assert(t[i] == p[i - d1 - 1]);
        } else {
            assert(t[i] == g[i - d2 - 1]);
        }
    }
}

/// One key and one token text fix the claims.
pub proof fn lemma_token_bytes_inj(key: Seq<u8>, c1: ClaimsData, c2: ClaimsData)
    requires
        claims_wf(c1),
        claims_wf(c2),
        token_bytes(key, c1) == token_bytes(key, c2),
    ensures
        c1 == c2,
{
    let t = token_bytes(key, c1);
    let h = b64u_enc(header_json());
    let p1 = b64u_enc(claims_json(c1));
    let p2 = b64u_enc(claims_json(c2));
    lemma_token_structure(key, c1);
    lemma_token_structure(key, c2);
    let d1 = h.len() as int;
    if p1.len() < p2.len() {
        assert(t[d1 + 1 + p1.len()] == 46);
        assert(d1 + 1 + p1.len() != d1 + 1 + p2.len());
        assert(false);
    }
    if p2.len() < p1.len() {
        assert(t[d1 + 1 + p2.len()] == 46);
        assert(false);
    }
    assert(p1 =~= p2) by {
        assert(p1 == t.subrange(d1 + 1, d1 + 1 + p1.len()));
        assert(p2 == t.subrange(d1 + 1, d1 + 1 + p2.len()));
    }
    lemma_enc_inj(claims_json(c1), claims_json(c2));
    lemma_claims_json_inj(c1, c2);
}


/// Position of the last dot strictly before `end`, if any.
fn rfind_dot(v: &[u8], end: usize) -> (r: Option<usize>)
    requires
        end <= v@.len(),
    ensures
        match r {
            Some(d) => d < end && v@[d as int] == 46 && forall|j: int|
                d < j < end ==> v@[j] != 46,
            None => forall|j: int| 0 <= j < end ==> v@[j] != 46,
        },
{
    let mut i: usize = end;
    while i > 0
        invariant
            i <= end <= v@.len(),
            forall|j: int| i <= j < end ==> v@[j] != 46,
        decreases i,
    {
        i = i - 1;
        if v[i] == 46 {
            return Some(i);
        }
    }
    None
}

/// Signs a set of claims into the compact token text. Succeeds exactly when
/// the timestamps are nonnegative.
pub fn issue_token(secret: &[u8], claims: &Claims) -> (r: Result<String, TokenError>)
    ensures
        match r {
            Ok(t) => 0 <= claims.exp && 0 <= claims.iat
                && encode_utf8(t@) == token_bytes(secret@, claims.model()),
            Err(e) => e == TokenError::Invalid && !(0 <= claims.exp && 0 <= claims.iat),
        },
{
    if claims.exp < 0 || claims.iat < 0 {
        return Err(TokenError::Invalid);
    }
    let ghost m = claims.model();
    let payload = write_claims_json(claims);
    let hdr = header_bytes();
    let mut tok = b64u_encode(hdr.as_slice());
    let mut p64 = b64u_encode(payload.as_slice());
    tok.push(46);
    tok.append(&mut p64);
    proof {
        assert(tok@ =~= signing_input(m));
    }
    let mut sig = sign_hs256(secret, tok.as_slice());
    tok.push(46);
    tok.append(&mut sig);
    proof {
        assert(tok@ =~= token_bytes(secret@, m));
        lemma_token_structure(secret@, m);
        lemma_ascii_valid_utf8(tok@);
    }
    match bytes_to_string(tok) {
        Some(s) => Ok(s),
        None => {
            proof {
                assert(false);
            }
            Err(TokenError::Invalid)
        }
    }
}

/// Checks a token text under a key at a given time: exactly the model's
/// verdict, and on success the claims the token spells.
#[verifier::rlimit(100)]
pub fn check_token(secret: &[u8], token: &str, now: i64) -> (r: Result<Claims, TokenError>)
    ensures
        match r {
            Ok(cl) => claims_wf(cl.model())
                && verify_model(secret@, encode_utf8(token@), now as int) == Ok::<ClaimsData, TokenError>(cl.model()),
            Err(e) => verify_model(secret@, encode_utf8(token@), now as int) == Err::<ClaimsData, TokenError>(e),
        },
{
    let tb = token.as_bytes();
    let d2 = match rfind_dot(tb, tb.len()) {
        Some(d) => d,
        None => {
            proof {
                assert forall|c: ClaimsData| (claims_wf(c) && tb@ == token_bytes(secret@, c))
                    implies false by {
                    lemma_token_structure(secret@, c);
                    let h = b64u_enc(header_json());
                    assert(tb@[h.len() as int] == 46);
                }
                assert(verify_model(secret@, tb@, now as int) == Err::<ClaimsData, TokenError>(TokenError::Invalid));
            }
            return Err(TokenError::Invalid);
        }
    };
    let d1 = match rfind_dot(tb, d2) {
        Some(d) => d,
        None => {
            proof {
                assert forall|c: ClaimsData| (claims_wf(c) && tb@ == token_bytes(secret@, c))
                    implies false by {
                    lemma_token_structure(secret@, c);
                    let h = b64u_enc(header_json());
                    let p = b64u_enc(claims_json(c));
                    let d1c = h.len() as int;
                    let d2c = h.len() + 1 + p.len() as int;
                    assert(tb@[d2c] == 46);
                    assert(d2 as int == d2c) by {
                        if d2 < d2c {
                            assert(tb@[d2c] != 46);
                        }
                        if d2c < d2 {
                            assert(tb@[d2 as int] != 46);
                        }
                    }
                    assert(tb@[d1c] == 46);
                    assert(tb@[d1c] != 46);
                }
                assert(verify_model(secret@, tb@, now as int) == Err::<ClaimsData, TokenError>(TokenError::Invalid));
            }
            return Err(TokenError::Invalid);
        }
    };
    // One fact serves every later step: where a well-formed token's
    // segments would have to stand, given the two dots found.
    proof {
        assert forall|c: ClaimsData|
            #![trigger token_bytes(secret@, c)]
            (claims_wf(c) && tb@ == token_bytes(secret@, c)) implies ({
            &&& d1 as int == b64u_enc(header_json()).len()
            &&& tb@.subrange(0, d1 as int) == b64u_enc(header_json())
            &&& tb@.subrange(d1 + 1, d2 as int) == b64u_enc(claims_json(c))
            &&& tb@.subrange(0, d2 as int) == signing_input(c)
            &&& tb@.subrange(d2 + 1, tb@.len() as int)
                == b64u_enc(hmac256(secret@, signing_input(c)))
        }) by {
            lemma_token_structure(secret@, c);
            let h = b64u_enc(header_json());
            let p = b64u_enc(claims_json(c));
            let d1c = h.len() as int;
            let d2c = h.len() + 1 + p.len() as int;
            assert(tb@[d2c] == 46);
            assert(d2 as int == d2c) by {
                if d2 < d2c {
                    assert(tb@[d2c] != 46);
                }
                if d2c < d2 {
                    assert(tb@[d2 as int] != 46);
                }
            }
            assert(tb@[d1c] == 46);
            assert(d1 as int == d1c) by {
                if d1 < d1c {
                    assert(tb@[d1c] != 46);
                }
                if d1c < d1 {
                    assert(tb@[d1 as int] != 46);
                }
            }
        }
    }
    let hdr = header_bytes();
    let h64 = b64u_encode(hdr.as_slice());
    let hpart = vstd::slice::slice_subrange(tb, 0, d1);
    if !bytes_eq(hpart, h64.as_slice()) {
        proof {
            assert(verify_model(secret@, tb@, now as int) == Err::<ClaimsData, TokenError>(TokenError::Invalid));
        }
        return Err(TokenError::Invalid);
    }
    let input = vstd::slice::slice_subrange(tb, 0, d2);
    let gpart = vstd::slice::slice_subrange(tb, d2 + 1, tb.len());
    if !verify_hs256(secret, gpart, input) {
        proof {
            assert(verify_model(secret@, tb@, now as int) == Err::<ClaimsData, TokenError>(TokenError::Invalid));
        }
        return Err(TokenError::Invalid);
    }
    let ppart = vstd::slice::slice_subrange(tb, d1 + 1, d2);
    let pd = match b64u_decode(ppart) {
        Some(v) => v,
        None => {
            proof {
                assert forall|c: ClaimsData| (claims_wf(c) && tb@ == token_bytes(secret@, c))
                    implies false by {
                    lemma_dec_enc(claims_json(c));
                }
                assert(verify_model(secret@, tb@, now as int) == Err::<ClaimsData, TokenError>(TokenError::Invalid));
            }
            return Err(TokenError::Invalid);
        }
    };
    let cl = match parse_claims(pd.as_slice()) {
        Some(x) => x,
        None => {
            proof {
                assert forall|c: ClaimsData| (claims_wf(c) && tb@ == token_bytes(secret@, c))
                    implies false by {
                    lemma_dec_enc(claims_json(c));
                    assert(b64u_dec(ppart@) == Some(claims_json(c)));
                    assert(pd@ == claims_json(c));
                }
                assert(verify_model(secret@, tb@, now as int) == Err::<ClaimsData, TokenError>(TokenError::Invalid));
            }
            return Err(TokenError::Invalid);
        }
    };
    let re = write_claims_json(&cl);
    if !bytes_eq(re.as_slice(), pd.as_slice()) {
        proof {
            assert forall|c: ClaimsData| (claims_wf(c) && tb@ == token_bytes(secret@, c))
                implies false by {
                lemma_dec_enc(claims_json(c));
                assert(b64u_dec(ppart@) == Some(claims_json(c)));
                assert(pd@ == claims_json(c));
                assert(cl.model() == c);
                assert(re@ == claims_json(c));
            }
            assert(verify_model(secret@, tb@, now as int) == Err::<ClaimsData, TokenError>(TokenError::Invalid));
        }
        return Err(TokenError::Invalid);
    }
    proof {
        let m = cl.model();
        lemma_claims_model_wf(cl);
        lemma_dec_some(ppart@, pd@);
        assert(re@ == claims_json(m));
        assert(pd@ == claims_json(m));
        assert(tb@.subrange(d1 + 1, d2 as int) == b64u_enc(claims_json(m)));
        assert(tb@.subrange(0, d1 as int) == b64u_enc(header_json()));
        assert(tb@.subrange(0, d2 as int) =~= tb@.subrange(0, d1 as int) + seq![46u8]
            + tb@.subrange(d1 + 1, d2 as int));
        assert(tb@.subrange(0, d2 as int) == signing_input(m));
        assert(tb@.subrange(d2 + 1, tb@.len() as int)
            == b64u_enc(hmac256(secret@, signing_input(m))));
        assert(tb@ =~= tb@.subrange(0, d2 as int) + seq![46u8]
            + tb@.subrange(d2 + 1, tb@.len() as int));
        assert(tb@ == token_bytes(secret@, m));
        assert(exists|c: ClaimsData| claims_wf(c) && tb@ == token_bytes(secret@, c));
        let cc = choose|c: ClaimsData| claims_wf(c) && tb@ == token_bytes(secret@, c);
        lemma_token_bytes_inj(secret@, cc, m);
    }
    if now < cl.exp {
        Ok(cl)
    } else {
        Err(TokenError::Expired)
    }
}

/// A token made from a set of claims verifies back to exactly those claims
/// while it has not expired.
pub proof fn lemma_token_round_trip(key: Seq<u8>, c: ClaimsData, now: int)
    requires
        claims_wf(c),
        now < c.exp,
    ensures
        verify_model(key, token_bytes(key, c), now) == Ok::<ClaimsData, TokenError>(c),
{
    let t = token_bytes(key, c);
    assert(exists|x: ClaimsData| claims_wf(x) && t == token_bytes(key, x));
    let cc = choose|x: ClaimsData| claims_wf(x) && t == token_bytes(key, x);
    lemma_token_bytes_inj(key, cc, c);
}

/// A well-signed token whose expiry has passed is rejected.
pub proof fn lemma_expired_token_rejected(key: Seq<u8>, c: ClaimsData, now: int)
    requires
        claims_wf(c),
        now >= c.exp,
    ensures
        verify_model(key, token_bytes(key, c), now) == Err::<ClaimsData, TokenError>(TokenError::Expired),
{
    let t = token_bytes(key, c);
    assert(exists|x: ClaimsData| claims_wf(x) && t == token_bytes(key, x));
    let cc = choose|x: ClaimsData| claims_wf(x) && t == token_bytes(key, x);
    lemma_token_bytes_inj(key, cc, c);
}

/// Changing any one byte of a token's signature makes it invalid, at any
/// time and for any claims.
pub proof fn lemma_signature_flip_rejected(key: Seq<u8>, c: ClaimsData, now: int, i: int, b: u8)
    requires
        claims_wf(c),
        signing_input(c).len() + 1 <= i < token_bytes(key, c).len(),
        b != token_bytes(key, c)[i],
    ensures
        verify_model(key, token_bytes(key, c).update(i, b), now)
            == Err::<ClaimsData, TokenError>(TokenError::Invalid),
{
    let t = token_bytes(key, c);
    let t2 = t.update(i, b);
    lemma_token_structure(key, c);
    let h = b64u_enc(header_json());
    let p = b64u_enc(claims_json(c));
    let g = b64u_enc(hmac256(key, signing_input(c)));
    let d1 = h.len() as int;
    let d2 = h.len() + 1 + p.len() as int;
    assert(signing_input(c).len() == d2);
    assert forall|x: ClaimsData| claims_wf(x) && t2 == token_bytes(key, x) implies false by {
        lemma_token_structure(key, x);
        let px = b64u_enc(claims_json(x));
        let d2x = h.len() + 1 + px.len() as int;
        assert(t2[i] != 46) by {
            assert(i != d1 && i != d2x) by {
                if i == d2x {
                    assert(t2[d2x] == 46);
                    assert(t2[d2] == t[d2] == 46);
                    assert(d2 == d1 || d2 == d2x || t2[d2] != 46);
                }
            }
        }
        assert(t2[d2] == 46);
        assert(d2 == d2x) by {
            if d2 != d2x {
                assert(t2[d2] != 46);
            }
        }
        assert(px =~= p) by {
            assert(px == t2.subrange(d1 + 1, d2x));
            assert(t2.subrange(d1 + 1, d2) =~= t.subrange(d1 + 1, d2));
        }
        lemma_enc_inj(claims_json(x), claims_json(c));
        lemma_claims_json_inj(x, c);
        assert(t2.subrange(d2 + 1, t2.len() as int) == g);
        assert(t2[i] == t[i]) by {
            assert(t2[i] == t2.subrange(d2 + 1, t2.len() as int)[i - d2 - 1]);
            assert(t[i] == t.subrange(d2 + 1, t.len() as int)[i - d2 - 1]);
            assert(t.subrange(d2 + 1, t.len() as int) == g);
        }
        assert(false);
    }
    assert(verify_model(key, t2, now) == Err::<ClaimsData, TokenError>(TokenError::Invalid));
}

/// Relies on chrono's `Utc::now`: seconds since the epoch, as the clock
/// stands. Nothing is assumed of the value.
#[verifier::external_body]
pub(crate) fn now_ts() -> (r: i64)
    ensures
        true,
{
    chrono::Utc::now().timestamp()
}

/// Relies on uuid's `Uuid::new_v4`: a fresh random identifier in text form.
/// Nothing is assumed of the value.
#[verifier::external_body]
pub(crate) fn new_token_id() -> (r: String)
    ensures
        true,
{
    uuid::Uuid::new_v4().to_string()
}

impl Claims {
    /// Builds the claims for one issuance: expiry a day after issue, a fresh
    /// token identifier, the rest as given. The expiry saturates at the far
    /// end of the representable range.
    pub fn new(user_id: String, email: String, first_name: String, last_name: String, role: Role)
        -> (r: Claims)
        ensures
            r.sub == user_id,
            r.email == email,
            r.first_name == first_name,
            r.last_name == last_name,
            r.role == role,
            r.exp as int == if r.iat <= i64::MAX - 86400 {
                r.iat + 86400
            } else {
                i64::MAX as int
            },
    {
        let iat = now_ts();
        let exp = if iat <= i64::MAX - 86400 {
            iat + 86400
        } else {
            i64::MAX
        };
        Claims {
            sub: user_id,
            exp,
            iat,
            jti: new_token_id(),
            email,
            first_name,
            last_name,
            role,
        }
    }
}

/// Signs and verifies session tokens under one immutable symmetric key,
/// loaded once at start.
pub struct JwtService {
    secret: Vec<u8>,
}

impl JwtService {
    /// Keeps the signing key. The caller loads it from configuration.
    pub fn new(secret: Vec<u8>) -> (r: JwtService)
        ensures
            r.key() == secret@,
    {
        JwtService { secret }
    }

    /// The key this service signs with.
    pub closed spec fn key(self) -> Seq<u8> {
        self.secret@
    }

    /// Issues a token for an account: claims as `Claims::new` builds them,
    /// signed under this service's key. Fails only when the clock reads
    /// before the epoch.
    pub fn generate_token(
        &self,
        user_id: String,
        email: String,
        first_name: String,
        last_name: String,
        role: Role,
    ) -> (r: Result<String, TokenError>)
        ensures
            match r {
                Ok(t) => exists|c: ClaimsData|
                    claims_wf(c) && encode_utf8(t@) == token_bytes(self.key(), c)
                        && c.sub == encode_utf8(user_id@) && c.email == encode_utf8(email@)
                        && c.first_name == encode_utf8(first_name@)
                        && c.last_name == encode_utf8(last_name@) && c.role == role
                        && c.exp == (if c.iat <= i64::MAX - 86400 {
                        c.iat + 86400
                    } else {
                        i64::MAX as int
                    }),
                Err(e) => e == TokenError::Invalid,
            },
    {
        let ghost uid = user_id@;
        let ghost em = email@;
        let ghost fs = first_name@;
        let ghost ls = last_name@;
        let claims = Claims::new(user_id, email, first_name, last_name, role);
        let r = issue_token(self.secret.as_slice(), &claims);
        proof {
            if r is Ok {
                assert(claims_wf(claims.model())) by {
                    lemma_claims_model_wf(claims);
                }
                assert(claims.model().sub == encode_utf8(uid));
            }
        }
        r
    }


    /// Verifies a token against this service's key at an explicitly given
    /// moment: exactly the model's verdict.
    pub fn verify_token_at(&self, token: &str, now: i64) -> (r: Result<Claims, TokenError>)
        ensures
            match r {
                Ok(cl) => claims_wf(cl.model()) && verify_model(
                    self.key(), encode_utf8(token@), now as int)
                    == Ok::<ClaimsData, TokenError>(cl.model()),
                Err(e) => verify_model(self.key(), encode_utf8(token@), now as int)
                    == Err::<ClaimsData, TokenError>(e),
            },
    {
        check_token(self.secret.as_slice(), token, now)
    }

    /// Verifies a token against this service's key at the time the clock
    /// reads now.
    pub fn verify_token(&self, token: &str) -> (r: Result<Claims, TokenError>)
        ensures
            match r {
                Ok(cl) => claims_wf(cl.model()) && exists|now: int|
                    verify_model(self.key(), encode_utf8(token@), now) == Ok::<ClaimsData, TokenError>(cl.model()),
                Err(_) => true,
            },
    {
        let now = now_ts();
        let r = check_token(self.secret.as_slice(), token, now);
        proof {
            if r is Ok {
                let cl = r->Ok_0;
                assert(verify_model(self.key(), encode_utf8(token@), now as int)
                    == Ok::<ClaimsData, TokenError>(cl.model()));
                assert(exists|n: int|
                    verify_model(self.key(), encode_utf8(token@), n)
                        == Ok::<ClaimsData, TokenError>(cl.model()));
            }
        }
        r
    }
}

} // verus!
