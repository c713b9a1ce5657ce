//! Byte- and string-level helpers shared by the verified modules.

use vstd::prelude::*;
use vstd::utf8::{decode_first_scalar, decode_utf8, encode_utf8, encode_utf8_decode_utf8,
    is_leading_byte_width_1, length_of_first_scalar, pop_first_scalar, valid_first_scalar,
    valid_utf8};

verus! {

/// Byte-for-byte equality of two slices.
pub fn bytes_eq(a: &[u8], b: &[u8]) -> (r: bool)
    ensures
        r == (a@ == b@),
{
    if a.len() != b.len() {
        assert(a@ != b@) by {
            assert(a@.len() != b@.len());
        }
        return false;
    }
    let mut i: usize = 0;
    while i < a.len()
        invariant
            i <= a@.len(),
            a@.len() == b@.len(),
            forall|j: int| 0 <= j < i ==> a@[j] == b@[j],
        decreases a@.len() - i,
    {
        if a[i] != b[i] {
            return false;
        }
        i = i + 1;
    }
    proof {
        assert(a@ =~= b@);
    }
    true
}

/// ASCII bytes are valid UTF-8 and decode to themselves, byte for char.
pub proof fn lemma_ascii_valid_utf8(bytes: Seq<u8>)
    requires
        forall|i: int| 0 <= i < bytes.len() ==> bytes[i] < 128,
    ensures
        valid_utf8(bytes),
        decode_utf8(bytes) == Seq::new(bytes.len(), |i: int| bytes[i] as char),
    decreases bytes.len(),
{
    if bytes.len() != 0 {
        assert(is_leading_byte_width_1(bytes[0]));
        assert(valid_first_scalar(bytes));
        assert(length_of_first_scalar(bytes) == 1);
        assert(pop_first_scalar(bytes) =~= bytes.skip(1));
        lemma_ascii_valid_utf8(bytes.skip(1));
        let b0 = bytes[0];
        assert(decode_first_scalar(bytes) == (b0 & 0x7f) as u32);
        assert(b0 & 0x7f == b0) by (bit_vector)
            requires
                b0 < 128,
        ;
        assert(decode_first_scalar(bytes) as char == bytes[0] as char);
        assert(decode_utf8(bytes) == seq![decode_first_scalar(bytes) as char]
            + decode_utf8(pop_first_scalar(bytes)));
        assert(decode_utf8(bytes) =~= Seq::new(bytes.len(), |i: int| bytes[i] as char));
    } else {
        assert(decode_utf8(bytes) =~= Seq::new(bytes.len(), |i: int| bytes[i] as char));
    }
}

/// Character-for-character equality of two strings, decided on their bytes.
pub fn str_eq(a: &str, b: &str) -> (r: bool)
    ensures
        r == (a@ == b@),
{
    let r = bytes_eq(a.as_bytes(), b.as_bytes());
    proof {
        if encode_utf8(a@) == encode_utf8(b@) {
            encode_utf8_decode_utf8(a@);
            encode_utf8_decode_utf8(b@);
            assert(a@ == b@);
        }
    }
    r
}

} // verus!
