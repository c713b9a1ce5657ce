//! Url-safe base64 without padding, as tokens use it: a specification of the
//! encoding, facts about it, and trusted calls into the `base64` crate.

use base64::Engine;
use vstd::prelude::*;

verus! {

/// The url-safe base64 alphabet (RFC 4648 §5) as a byte for each sextet.
pub open spec fn b64_char(s: u8) -> u8 {
    if s < 26 {
        (65 + s) as u8
    } else if s < 52 {
        (97 + (s - 26)) as u8
    } else if s < 62 {
        (48 + (s - 52)) as u8
    } else if s == 62 {
        45
    } else {
        95
    }
}

/// Url-safe base64 of a byte sequence, without padding.
pub open spec fn b64u_enc(s: Seq<u8>) -> Seq<u8>
    decreases s.len(),
{
    if s.len() == 0 {
        Seq::<u8>::empty()
    } else if s.len() == 1 {
        let b0 = s[0];
        seq![b64_char(b0 >> 2), b64_char((b0 & 3) << 4)]
    } else if s.len() == 2 {
        let b0 = s[0];
        let b1 = s[1];
        seq![
            b64_char(b0 >> 2),
            b64_char(((b0 & 3) << 4) | (b1 >> 4)),
            b64_char((b1 & 15) << 2),
        ]
    } else {
        let b0 = s[0];
        let b1 = s[1];
        let b2 = s[2];
        seq![
            b64_char(b0 >> 2),
            b64_char(((b0 & 3) << 4) | (b1 >> 4)),
            b64_char(((b1 & 15) << 2) | (b2 >> 6)),
            b64_char(b2 & 63),
        ] + b64u_enc(s.skip(3))
    }
}

/// The decoding that accepts exactly the canonical encodings.
pub open spec fn b64u_dec(s: Seq<u8>) -> Option<Seq<u8>> {
    if exists|v: Seq<u8>| b64u_enc(v) == s {
        Some(choose|v: Seq<u8>| b64u_enc(v) == s)
    } else {
        None::<Seq<u8>>
    }
}

/// Every alphabet byte is printable ASCII and is neither `.` nor `=`.
pub proof fn lemma_b64_char_range(s: u8)
    requires
        s < 64,
    ensures
        b64_char(s) < 128,
        b64_char(s) != 46,
        b64_char(s) != 61,
{
}

/// The alphabet maps distinct sextets to distinct bytes.
pub proof fn lemma_b64_char_inj(a: u8, b: u8)
    requires
        a < 64,
        b < 64,
        b64_char(a) == b64_char(b),
    ensures
        a == b,
{
}

/// The length of an encoding, and that every byte of it is in the alphabet.
pub proof fn lemma_enc_shape(s: Seq<u8>)
    ensures
        s.len() == 0 ==> b64u_enc(s).len() == 0,
        s.len() == 1 ==> b64u_enc(s).len() == 2,
        s.len() == 2 ==> b64u_enc(s).len() == 3,
        s.len() >= 3 ==> b64u_enc(s).len() == 4 + b64u_enc(s.skip(3)).len(),
        forall|i: int|
            0 <= i < b64u_enc(s).len() ==> (#[trigger] b64u_enc(s)[i]) < 128
                && b64u_enc(s)[i] != 46 && b64u_enc(s)[i] != 61,
    decreases s.len(),
{
    if s.len() == 0 {
    } else if s.len() == 1 {
        let b0 = s[0];
        assert(b0 >> 2 < 64 && (b0 & 3) << 4 < 64) by (bit_vector);
        lemma_b64_char_range(b0 >> 2);
        lemma_b64_char_range((b0 & 3) << 4);
    } else if s.len() == 2 {
        let b0 = s[0];
        let b1 = s[1];
        assert(b0 >> 2 < 64 && ((b0 & 3) << 4) | (b1 >> 4) < 64 && (b1 & 15) << 2 < 64)
            by (bit_vector);
        lemma_b64_char_range(b0 >> 2);
        lemma_b64_char_range(((b0 & 3) << 4) | (b1 >> 4));
        lemma_b64_char_range((b1 & 15) << 2);
    } else {
        let b0 = s[0];
        let b1 = s[1];
        let b2 = s[2];
        assert(b0 >> 2 < 64 && ((b0 & 3) << 4) | (b1 >> 4) < 64
            && ((b1 & 15) << 2) | (b2 >> 6) < 64 && b2 & 63 < 64) by (bit_vector);
        lemma_b64_char_range(b0 >> 2);
        lemma_b64_char_range(((b0 & 3) << 4) | (b1 >> 4));
        lemma_b64_char_range(((b1 & 15) << 2) | (b2 >> 6));
        lemma_b64_char_range(b2 & 63);
        lemma_enc_shape(s.skip(3));
    }
}

/// The encoding is injective.
pub proof fn lemma_enc_inj(a: Seq<u8>, b: Seq<u8>)
    requires
        b64u_enc(a) == b64u_enc(b),
    ensures
        a == b,
    decreases a.len(),
{
    lemma_enc_shape(a);
    lemma_enc_shape(b);
    if a.len() >= 3 && b.len() >= 3 {
        lemma_enc_shape(a.skip(3));
        lemma_enc_shape(b.skip(3));
        let a0 = a[0];
        let a1 = a[1];
        let a2 = a[2];
        let b0 = b[0];
        let b1 = b[1];
        let b2 = b[2];
        assert(a0 >> 2 < 64 && ((a0 & 3) << 4) | (a1 >> 4) < 64
            && ((a1 & 15) << 2) | (a2 >> 6) < 64 && a2 & 63 < 64) by (bit_vector);
        assert(b0 >> 2 < 64 && ((b0 & 3) << 4) | (b1 >> 4) < 64
            && ((b1 & 15) << 2) | (b2 >> 6) < 64 && b2 & 63 < 64) by (bit_vector);
        assert(b64u_enc(a)[0] == b64_char(a0 >> 2));
        assert(b64u_enc(a)[1] == b64_char(((a0 & 3) << 4) | (a1 >> 4)));
        assert(b64u_enc(a)[2] == b64_char(((a1 & 15) << 2) | (a2 >> 6)));
        assert(b64u_enc(a)[3] == b64_char(a2 & 63));
        assert(b64u_enc(b)[0] == b64_char(b0 >> 2));
        assert(b64u_enc(b)[1] == b64_char(((b0 & 3) << 4) | (b1 >> 4)));
        assert(b64u_enc(b)[2] == b64_char(((b1 & 15) << 2) | (b2 >> 6)));
        assert(b64u_enc(b)[3] == b64_char(b2 & 63));
        lemma_b64_char_inj(a0 >> 2, b0 >> 2);
        lemma_b64_char_inj(((a0 & 3) << 4) | (a1 >> 4), ((b0 & 3) << 4) | (b1 >> 4));
        lemma_b64_char_inj(((a1 & 15) << 2) | (a2 >> 6), ((b1 & 15) << 2) | (b2 >> 6));
        lemma_b64_char_inj(a2 & 63, b2 & 63);
        assert(a0 == b0 && a1 == b1 && a2 == b2) by (bit_vector)
            requires
                a0 >> 2 == b0 >> 2,
                ((a0 & 3) << 4) | (a1 >> 4) == ((b0 & 3) << 4) | (b1 >> 4),
                ((a1 & 15) << 2) | (a2 >> 6) == ((b1 & 15) << 2) | (b2 >> 6),
                a2 & 63 == b2 & 63,
        ;
        assert(b64u_enc(a).skip(4) == b64u_enc(a.skip(3)));
        assert(b64u_enc(b).skip(4) == b64u_enc(b.skip(3)));
        lemma_enc_inj(a.skip(3), b.skip(3));
        assert(a == seq![a0, a1, a2] + a.skip(3));
        assert(b == seq![b0, b1, b2] + b.skip(3));
    } else if a.len() == 2 && b.len() == 2 {
        let a0 = a[0];
        let a1 = a[1];
        let b0 = b[0];
        let b1 = b[1];
        assert(a0 >> 2 < 64 && ((a0 & 3) << 4) | (a1 >> 4) < 64 && (a1 & 15) << 2 < 64)
            by (bit_vector);
        assert(b0 >> 2 < 64 && ((b0 & 3) << 4) | (b1 >> 4) < 64 && (b1 & 15) << 2 < 64)
            by (bit_vector);
        assert(b64u_enc(a)[0] == b64u_enc(b)[0]);
        assert(b64u_enc(a)[1] == b64u_enc(b)[1]);
        assert(b64u_enc(a)[2] == b64u_enc(b)[2]);
        lemma_b64_char_inj(a0 >> 2, b0 >> 2);
        lemma_b64_char_inj(((a0 & 3) << 4) | (a1 >> 4), ((b0 & 3) << 4) | (b1 >> 4));
        lemma_b64_char_inj((a1 & 15) << 2, (b1 & 15) << 2);
        assert(a0 == b0 && a1 == b1) by (bit_vector)
            requires
                a0 >> 2 == b0 >> 2,
                ((a0 & 3) << 4) | (a1 >> 4) == ((b0 & 3) << 4) | (b1 >> 4),
                (a1 & 15) << 2 == (b1 & 15) << 2,
        ;
        assert(a == seq![a0, a1]);
        assert(b == seq![b0, b1]);
    } else if a.len() == 1 && b.len() == 1 {
        let a0 = a[0];
        let b0 = b[0];
        assert(a0 >> 2 < 64 && (a0 & 3) << 4 < 64) by (bit_vector);
        assert(b0 >> 2 < 64 && (b0 & 3) << 4 < 64) by (bit_vector);
        assert(b64u_enc(a)[0] == b64u_enc(b)[0]);
        assert(b64u_enc(a)[1] == b64u_enc(b)[1]);
        lemma_b64_char_inj(a0 >> 2, b0 >> 2);
        lemma_b64_char_inj((a0 & 3) << 4, (b0 & 3) << 4);
        assert(a0 == b0) by (bit_vector)
            requires
                a0 >> 2 == b0 >> 2,
                (a0 & 3) << 4 == (b0 & 3) << 4,
        ;
        assert(a == seq![a0]);
        assert(b == seq![b0]);
    } else if a.len() == 0 && b.len() == 0 {
        assert(a == b);
    } else {
        // Mismatched shapes give encodings of different lengths.
        if a.len() >= 3 {
            assert(b64u_enc(a).len() >= 4);
        }
        if b.len() >= 3 {
            assert(b64u_enc(b).len() >= 4);
        }
        assert(false);
    }
}

/// Decoding inverts encoding.
pub proof fn lemma_dec_enc(v: Seq<u8>)
    ensures
        b64u_dec(b64u_enc(v)) == Some(v),
{
    let s = b64u_enc(v);
    assert(exists|w: Seq<u8>| b64u_enc(w) == s);
    let w = choose|w: Seq<u8>| b64u_enc(w) == s;
    lemma_enc_inj(w, v);
}

/// A successful decoding names the canonical preimage.
pub proof fn lemma_dec_some(s: Seq<u8>, v: Seq<u8>)
    requires
        b64u_dec(s) == Some(v),
    ensures
        b64u_enc(v) == s,
{
}

/// Relies on the `base64` crate's `URL_SAFE_NO_PAD` engine: `encode` produces
/// exactly the RFC 4648 §5 url-safe base64 text of the input, without padding.
#[verifier::external_body]
pub(crate) fn b64u_encode(bytes: &[u8]) -> (r: Vec<u8>)
    ensures
        r@ == b64u_enc(bytes@),
{
    base64::engine::general_purpose::URL_SAFE_NO_PAD.encode(bytes).into_bytes()
}

/// Relies on the `base64` crate's `URL_SAFE_NO_PAD` engine: `decode` succeeds
/// exactly on canonical encodings (it rejects padding, stray bytes, impossible
/// lengths and nonzero trailing bits) and inverts `encode`.
#[verifier::external_body]
pub(crate) fn b64u_decode(s: &[u8]) -> (r: Option<Vec<u8>>)
    ensures
        match r {
            Some(v) => b64u_dec(s@) == Some(v@),
            None => b64u_dec(s@) is None,
        },
{
    base64::engine::general_purpose::URL_SAFE_NO_PAD.decode(s).ok()
}

} // verus!
