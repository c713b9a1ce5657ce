//! The canonical JSON form of token claims: a byte-level specification of
//! the payload text, a verified writer, and a verified reader.

use vstd::prelude::*;
use vstd::utf8::{encode_utf8, valid_utf8};
use crate::claims::{bytes_to_string, Claims, ClaimsData, Role, claims_wf};

verus! {

/// Lowercase hex digit of a nibble.
pub open spec fn hex_digit(n: u8) -> u8 {
    if n < 10 {
        (48 + n) as u8
    } else {
        (87 + n) as u8
    }
}

/// How one byte of a JSON string body is written: quote and backslash get a
/// two-byte escape, control bytes a six-byte `\u00xx` escape, all else is
/// written as itself.
pub open spec fn esc_byte(b: u8) -> Seq<u8> {
    if b == 34 {
        seq![92u8, 34u8]
    } else if b == 92 {
        seq![92u8, 92u8]
    } else if b < 32 {
        seq![92u8, 117u8, 48u8, 48u8, hex_digit(b / 16), hex_digit(b % 16)]
    } else {
        seq![b]
    }
}

/// A whole JSON string body.
pub open spec fn esc(s: Seq<u8>) -> Seq<u8>
    decreases s.len(),
{
    if s.len() == 0 {
        Seq::<u8>::empty()
    } else {
        esc_byte(s[0]) + esc(s.skip(1))
    }
}

/// Decimal digits of a natural number.
pub open spec fn dec_nat(n: nat) -> Seq<u8>
    decreases n,
{
    if n < 10 {
        seq![(48 + n) as u8]
    } else {
        dec_nat(n / 10) + seq![(48 + n % 10) as u8]
    }
}

pub open spec fn lit_a() -> Seq<u8> {
    // `{"sub":"`
    seq![123u8, 34u8, 115u8, 117u8, 98u8, 34u8, 58u8, 34u8]
}

pub open spec fn lit_b() -> Seq<u8> {
    // `","exp":`
    seq![34u8, 44u8, 34u8, 101u8, 120u8, 112u8, 34u8, 58u8]
}

pub open spec fn lit_c() -> Seq<u8> {
    // `,"iat":`
    seq![44u8, 34u8, 105u8, 97u8, 116u8, 34u8, 58u8]
}

pub open spec fn lit_d() -> Seq<u8> {
    // `,"jti":"`
    seq![44u8, 34u8, 106u8, 116u8, 105u8, 34u8, 58u8, 34u8]
}

pub open spec fn lit_e() -> Seq<u8> {
    // `","email":"`
    seq![34u8, 44u8, 34u8, 101u8, 109u8, 97u8, 105u8, 108u8, 34u8, 58u8, 34u8]
}

pub open spec fn lit_f() -> Seq<u8> {
    // `","first_name":"`
    seq![34u8, 44u8, 34u8, 102u8, 105u8, 114u8, 115u8, 116u8, 95u8, 110u8, 97u8, 109u8, 101u8, 34u8, 58u8, 34u8]
}

pub open spec fn lit_g() -> Seq<u8> {
    // `","last_name":"`
    seq![34u8, 44u8, 34u8, 108u8, 97u8, 115u8, 116u8, 95u8, 110u8, 97u8, 109u8, 101u8, 34u8, 58u8, 34u8]
}

pub open spec fn lit_h() -> Seq<u8> {
    // `","role":"`
    seq![34u8, 44u8, 34u8, 114u8, 111u8, 108u8, 101u8, 34u8, 58u8, 34u8]
}

pub open spec fn lit_user() -> Seq<u8> {
    // `User"}`
    seq![85u8, 115u8, 101u8, 114u8, 34u8, 125u8]
}

pub open spec fn lit_admin() -> Seq<u8> {
    // `Admin"}`
    seq![65u8, 100u8, 109u8, 105u8, 110u8, 34u8, 125u8]
}

/// The canonical payload text of a set of claims.
pub open spec fn claims_json(c: ClaimsData) -> Seq<u8> {
    lit_a() + esc(c.sub) + lit_b() + dec_nat(c.exp as nat) + lit_c() + dec_nat(c.iat as nat)
        + lit_d() + esc(c.jti) + lit_e() + esc(c.email) + lit_f() + esc(c.first_name)
        + lit_g() + esc(c.last_name) + lit_h()
        + (if c.role is User { lit_user() } else { lit_admin() })
}

/// Escaping distributes over concatenation.
pub proof fn lemma_esc_concat(a: Seq<u8>, b: Seq<u8>)
    ensures
        esc(a + b) == esc(a) + esc(b),
    decreases a.len(),
{
    if a.len() == 0 {
        assert(a + b =~= b);
        assert(esc(a) + esc(b) =~= esc(b));
    } else {
        assert((a + b).skip(1) =~= a.skip(1) + b);
        lemma_esc_concat(a.skip(1), b);
        assert(esc_byte(a[0]) + (esc(a.skip(1)) + esc(b))
            =~= (esc_byte(a[0]) + esc(a.skip(1))) + esc(b));
    }
}

/// Escaping one more byte appends its escape.
pub proof fn lemma_esc_snoc(s: Seq<u8>, x: u8)
    ensures
        esc(s.push(x)) == esc(s) + esc_byte(x),
{
    assert(s.push(x) =~= s + seq![x]);
    lemma_esc_concat(s, seq![x]);
    assert(seq![x].skip(1) =~= Seq::<u8>::empty());
    assert(esc(seq![x]) == esc_byte(seq![x][0]) + esc(seq![x].skip(1)));
    assert(esc_byte(x) + Seq::<u8>::empty() =~= esc_byte(x));
}

fn push_lit_a(v: &mut Vec<u8>)
    ensures
        final(v)@ == old(v)@ + lit_a(),
{
    v.push(123);
    v.push(34);
    v.push(115);
    v.push(117);
    v.push(98);
    v.push(34);
    v.push(58);
    v.push(34);
    assert(v@ =~= old(v)@ + lit_a());
}

fn push_lit_b(v: &mut Vec<u8>)
    ensures
        final(v)@ == old(v)@ + lit_b(),
{
    v.push(34);
    v.push(44);
    v.push(34);
    v.push(101);
    v.push(120);
    v.push(112);
    v.push(34);
    v.push(58);
    assert(v@ =~= old(v)@ + lit_b());
}

fn push_lit_c(v: &mut Vec<u8>)
    ensures
        final(v)@ == old(v)@ + lit_c(),
{
    v.push(44);
    v.push(34);
    v.push(105);
    v.push(97);
    v.push(116);
    v.push(34);
    v.push(58);
    assert(v@ =~= old(v)@ + lit_c());
}

fn push_lit_d(v: &mut Vec<u8>)
    ensures
        final(v)@ == old(v)@ + lit_d(),
{
    v.push(44);
    v.push(34);
    v.push(106);
    v.push(116);
    v.push(105);
    v.push(34);
    v.push(58);
    v.push(34);
    assert(v@ =~= old(v)@ + lit_d());
}

fn push_lit_e(v: &mut Vec<u8>)
    ensures
        final(v)@ == old(v)@ + lit_e(),
{
    v.push(34);
    v.push(44);
    v.push(34);
    v.push(101);
    v.push(109);
    v.push(97);
    v.push(105);
    v.push(108);
    v.push(34);
    v.push(58);
    v.push(34);
    assert(v@ =~= old(v)@ + lit_e());
}

fn push_lit_f(v: &mut Vec<u8>)
    ensures
        final(v)@ == old(v)@ + lit_f(),
{
    v.push(34);
    v.push(44);
    v.push(34);
    v.push(102);
    v.push(105);
    v.push(114);
    v.push(115);
    v.push(116);
    v.push(95);
    v.push(110);
    v.push(97);
    v.push(109);
    v.push(101);
    v.push(34);
    v.push(58);
    v.push(34);
    assert(v@ =~= old(v)@ + lit_f());
}

fn push_lit_g(v: &mut Vec<u8>)
    ensures
        final(v)@ == old(v)@ + lit_g(),
{
    v.push(34);
    v.push(44);
    v.push(34);
    v.push(108);
    v.push(97);
    v.push(115);
    v.push(116);
    v.push(95);
    v.push(110);
    v.push(97);
    v.push(109);
    v.push(101);
    v.push(34);
    v.push(58);
    v.push(34);
    assert(v@ =~= old(v)@ + lit_g());
}

fn push_lit_h(v: &mut Vec<u8>)
    ensures
        final(v)@ == old(v)@ + lit_h(),
{
    v.push(34);
    v.push(44);
    v.push(34);
    v.push(114);
    v.push(111);
    v.push(108);
    v.push(101);
    v.push(34);
    v.push(58);
    v.push(34);
    assert(v@ =~= old(v)@ + lit_h());
}

fn push_lit_user(v: &mut Vec<u8>)
    ensures
        final(v)@ == old(v)@ + lit_user(),
{
    v.push(85);
    v.push(115);
    v.push(101);
    v.push(114);
    v.push(34);
    v.push(125);
    assert(v@ =~= old(v)@ + lit_user());
}

fn push_lit_admin(v: &mut Vec<u8>)
    ensures
        final(v)@ == old(v)@ + lit_admin(),
{
    v.push(65);
    v.push(100);
    v.push(109);
    v.push(105);
    v.push(110);
    v.push(34);
    v.push(125);
    assert(v@ =~= old(v)@ + lit_admin());
}

fn push_esc(v: &mut Vec<u8>, s: &[u8])
    ensures
        final(v)@ == old(v)@ + esc(s@),
{
    let ghost v0 = v@;
    let mut i: usize = 0;
    while i < s.len()
        invariant
            i <= s.len(),
            v@ == v0 + esc(s@.take(i as int)),
        decreases s.len() - i,
    {
        let b = s[i];
        let ghost pre = v@;
        if b == 34 {
            v.push(92);
            v.push(34);
            assert(v@ =~= pre + esc_byte(b));
        } else if b == 92 {
            v.push(92);
            v.push(92);
            assert(v@ =~= pre + esc_byte(b));
        } else if b < 32 {
            v.push(92);
            v.push(117);
            v.push(48);
            v.push(48);
            let hi = b / 16;
            let lo = b % 16;
            v.push(if hi < 10 { 48 + hi } else { 87 + hi });
            v.push(if lo < 10 { 48 + lo } else { 87 + lo });
            assert(v@ =~= pre + esc_byte(b));
        } else {
            v.push(b);
            assert(v@ =~= pre + esc_byte(b));
        }
        proof {
            lemma_esc_snoc(s@.take(i as int), b);
            assert(s@.take(i + 1) =~= s@.take(i as int).push(b));
            assert(v@ =~= v0 + esc(s@.take(i + 1)));
        }
        i = i + 1;
    }
    assert(s@.take(s@.len() as int) =~= s@);
}

fn push_dec(v: &mut Vec<u8>, n: u64)
    ensures
        final(v)@ == old(v)@ + dec_nat(n as nat),
    decreases n,
{
    if n < 10 {
        v.push(48 + n as u8);
        assert(v@ =~= old(v)@ + dec_nat(n as nat));
    } else {
        push_dec(v, n / 10);
        v.push(48 + (n % 10) as u8);
        assert(v@ =~= old(v)@ + dec_nat(n as nat));
    }
}

/// Writes the canonical payload text of `c`.
pub fn write_claims_json(c: &Claims) -> (r: Vec<u8>)
    requires
        0 <= c.exp,
        0 <= c.iat,
    ensures
        r@ == claims_json(c.model()),
{
    let mut v: Vec<u8> = Vec::new();
    push_lit_a(&mut v);
    push_esc(&mut v, c.sub.as_str().as_bytes());
    push_lit_b(&mut v);
    push_dec(&mut v, c.exp as u64);
    push_lit_c(&mut v);
    push_dec(&mut v, c.iat as u64);
    push_lit_d(&mut v);
    push_esc(&mut v, c.jti.as_str().as_bytes());
    push_lit_e(&mut v);
    push_esc(&mut v, c.email.as_str().as_bytes());
    push_lit_f(&mut v);
    push_esc(&mut v, c.first_name.as_str().as_bytes());
    push_lit_g(&mut v);
    push_esc(&mut v, c.last_name.as_str().as_bytes());
    push_lit_h(&mut v);
    match c.role {
        Role::User => push_lit_user(&mut v),
        Role::Admin => push_lit_admin(&mut v),
    }
    v
}


/// First byte of an escape: never a quote, never a control byte.
pub proof fn lemma_esc_byte_first(b: u8)
    ensures
        1 <= esc_byte(b).len() <= 6,
        esc_byte(b)[0] != 34,
        esc_byte(b)[0] == 92 || esc_byte(b)[0] >= 32,
        b >= 32 && b != 34 && b != 92 ==> esc_byte(b) == seq![b],
        b == 34 || b == 92 || b < 32 ==> esc_byte(b)[0] == 92,
{
}

/// No escape is a proper prefix of another: if two escapes open the same
/// text, they escape the same byte.
pub proof fn lemma_esc_byte_prefix_free(a: u8, b: u8, t: Seq<u8>)
    requires
        esc_byte(a).len() <= t.len(),
        esc_byte(b).len() <= t.len(),
        esc_byte(a) == t.take(esc_byte(a).len() as int),
        esc_byte(b) == t.take(esc_byte(b).len() as int),
    ensures
        a == b,
{
    let ea = esc_byte(a);
    let eb = esc_byte(b);
    assert(forall|i: int| 0 <= i < ea.len() ==> ea[i] == t[i]);
    assert(forall|i: int| 0 <= i < eb.len() ==> eb[i] == t[i]);
    if a == 34 || a == 92 || a < 32 {
        // `a`'s escape starts with a backslash, so `b`'s must as well.
        assert(t[0] == 92);
        assert(eb[0] == 92);
        if b >= 32 && b != 34 && b != 92 {
            assert(eb[0] == b);
            assert(false);
        }
        // Both escaped: the second byte picks the form.
        assert(t[1] == ea[1]);
        assert(t[1] == eb[1]);
        if a == 34 {
            assert(ea[1] == 34);
            if b == 92 {
                assert(eb[1] == 92);
                assert(false);
            }
            if b < 32 {
                assert(eb[1] == 117);
                assert(false);
            }
            assert(b == 34);
        } else if a == 92 {
            assert(ea[1] == 92);
            if b == 34 {
                assert(false);
            }
            if b < 32 {
                assert(false);
            }
            assert(b == 92);
        } else {
            assert(ea[1] == 117);
            if b == 34 || b == 92 {
                assert(false);
            }
            // Both six-byte forms: the hex digits agree.
            assert(ea[4] == t[4] && ea[5] == t[5]);
            assert(eb[4] == t[4] && eb[5] == t[5]);
            assert(hex_digit(a / 16) == hex_digit(b / 16));
            assert(hex_digit(a % 16) == hex_digit(b % 16));
            assert(a / 16 == b / 16 && a % 16 == b % 16);
            assert(a == (a / 16) * 16 + a % 16) by (nonlinear_arith);
            assert(b == (b / 16) * 16 + b % 16) by (nonlinear_arith);
        }
    } else {
        assert(ea == seq![a]);
        assert(t[0] == a);
        if b == 34 || b == 92 || b < 32 {
            assert(eb[0] == 92);
            assert(a == 92);
            assert(false);
        }
        assert(eb == seq![b]);
    }
}

/// If one escaped text opens another, the raw texts nest the same way.
pub proof fn lemma_esc_prefix(a: Seq<u8>, b: Seq<u8>)
    requires
        esc(a).len() <= esc(b).len(),
        esc(a) == esc(b).take(esc(a).len() as int),
    ensures
        a.len() <= b.len(),
        a == b.take(a.len() as int),
        esc(b) == esc(a) + esc(b.skip(a.len() as int)),
    decreases a.len(),
{
    if a.len() == 0 {
        assert(a == b.take(0));
        assert(b.skip(0) =~= b);
        assert(esc(a) + esc(b) =~= esc(b));
    } else {
        assert(esc(a) == esc_byte(a[0]) + esc(a.skip(1)));
        if b.len() == 0 {
            lemma_esc_byte_first(a[0]);
            assert(esc(a).len() >= 1);
            assert(false);
        }
        assert(esc(b) == esc_byte(b[0]) + esc(b.skip(1)));
        lemma_esc_byte_first(a[0]);
        lemma_esc_byte_first(b[0]);
        let t = esc(b);
        assert(esc_byte(a[0]) == t.take(esc_byte(a[0]).len() as int));
        assert(esc_byte(b[0]) == t.take(esc_byte(b[0]).len() as int));
        lemma_esc_byte_prefix_free(a[0], b[0], t);
        let k = esc_byte(a[0]).len() as int;
        assert(esc(a.skip(1)) =~= esc(a).skip(k));
        assert(esc(b.skip(1)) =~= esc(b).skip(k));
        assert(esc(a.skip(1)) == esc(b.skip(1)).take(esc(a.skip(1)).len() as int));
        lemma_esc_prefix(a.skip(1), b.skip(1));
        assert(a =~= seq![a[0]] + a.skip(1));
        assert(b.skip(1).take(a.len() - 1) =~= b.take(a.len() as int).skip(1));
        assert(a == b.take(a.len() as int));
        assert(b.skip(1).skip(a.len() - 1) =~= b.skip(a.len() as int));
        assert(esc(b) =~= esc(a) + esc(b.skip(a.len() as int)));
    }
}

/// Value of a run of decimal digits.
pub open spec fn dec_val(s: Seq<u8>) -> nat
    decreases s.len(),
{
    if s.len() == 0 {
        0
    } else {
        dec_val(s.drop_last()) * 10 + (if s.last() >= 48 { (s.last() - 48) as nat } else { 0 })
    }
}

/// The digits of `n` are digits, at least one of them.
pub proof fn lemma_dec_digits(n: nat)
    ensures
        dec_nat(n).len() >= 1,
        forall|i: int| 0 <= i < dec_nat(n).len() ==> 48 <= #[trigger] dec_nat(n)[i] <= 57,
    decreases n,
{
    if n >= 10 {
        lemma_dec_digits(n / 10);
    }
}

/// Reading the digits of `n` back gives `n`.
pub proof fn lemma_dec_val(n: nat)
    ensures
        dec_val(dec_nat(n)) == n,
    decreases n,
{
    if n < 10 {
        assert(dec_nat(n) == seq![(48 + n) as u8]);
        assert(dec_nat(n).drop_last() =~= Seq::<u8>::empty());
        assert(dec_nat(n).last() == (48 + n) as u8);
        assert(dec_val(Seq::<u8>::empty()) == 0);
        assert(dec_val(dec_nat(n)) == 0 * 10 + (((48 + n) as u8 - 48) as nat));
    } else {
        lemma_dec_val(n / 10);
        assert(dec_nat(n).drop_last() =~= dec_nat(n / 10));
        assert(dec_nat(n).last() == (48 + n % 10) as u8);
        assert(n % 10 < 10);
        assert(dec_val(dec_nat(n)) == (n / 10) * 10 + n % 10);
        assert(n == (n / 10) * 10 + n % 10) by (nonlinear_arith);
    }
}

/// A digit run is worth at least any of its prefixes.
pub proof fn lemma_dec_val_prefix(s: Seq<u8>, i: int)
    requires
        0 <= i <= s.len(),
    ensures
        dec_val(s.take(i)) <= dec_val(s),
    decreases s.len() - i,
{
    if i < s.len() {
        lemma_dec_val_prefix(s, i + 1);
        assert(s.take(i + 1).drop_last() =~= s.take(i));
        assert(dec_val(s.take(i + 1)) == dec_val(s.take(i)) * 10
            + (if s.take(i + 1).last() >= 48 { (s.take(i + 1).last() - 48) as nat } else { 0 }));
        assert(dec_val(s.take(i)) <= dec_val(s.take(i)) * 10) by (nonlinear_arith);
    } else {
        assert(s.take(i) =~= s);
    }
}


/// Where a scan that has consumed `outv` can stand inside a canonical string
/// body `x` closed by a quote: the consumed part opens `x`, and what follows
/// is the escape of the rest. Landing past the closing quote is impossible.
proof fn lemma_scan_position(s: Seq<u8>, pos: int, i: int, outv: Seq<u8>, x: Seq<u8>)
    requires
        0 <= pos <= i <= s.len(),
        esc(outv) == s.subrange(pos, i),
        pos + esc(x).len() < s.len(),
        s.subrange(pos, pos + esc(x).len()) == esc(x),
        s[pos + esc(x).len()] == 34,
    ensures
        outv.len() <= x.len(),
        outv == x.take(outv.len() as int),
        i <= pos + esc(x).len(),
        esc(x.skip(outv.len() as int)) == s.subrange(i, pos + esc(x).len()),
        x.len() > outv.len() ==> i < pos + esc(x).len(),
{
    let l = esc(x).len() as int;
    let n1 = i - pos;
    if n1 <= l {
        assert(esc(outv) == esc(x).take(n1)) by {
            assert(esc(x).take(n1) =~= s.subrange(pos, i));
        }
        lemma_esc_prefix(outv, x);
        let rest = x.skip(outv.len() as int);
        assert(esc(rest) =~= esc(x).skip(n1));
        assert(esc(x).skip(n1) =~= s.subrange(i, pos + l));
        if x.len() > outv.len() {
            assert(rest.len() > 0);
            assert(esc(rest) == esc_byte(rest[0]) + esc(rest.skip(1)));
            lemma_esc_byte_first(rest[0]);
            assert(esc(rest).len() >= 1);
        }
    } else {
        assert(esc(x) == esc(outv).take(l)) by {
            assert(esc(outv).take(l) =~= s.subrange(pos, pos + l));
        }
        lemma_esc_prefix(x, outv);
        let rest = outv.skip(x.len() as int);
        assert(esc(rest) =~= esc(outv).skip(l));
        assert(esc(rest).len() == n1 - l);
        assert(rest.len() > 0) by {
            if rest.len() == 0 {
                assert(esc(rest).len() == 0);
            }
        }
        assert(esc(rest) == esc_byte(rest[0]) + esc(rest.skip(1)));
        lemma_esc_byte_first(rest[0]);
        assert(esc(rest)[0] == esc_byte(rest[0])[0]);
        assert(esc(rest)[0] == esc(outv)[l]);
        assert(esc(outv)[l] == s[pos + l]);
        assert(false);
    }
}

/// Reads a JSON string body from `pos` up to its closing quote, strictly in
/// the canonical form that `esc` writes. Finds every canonical body.
fn parse_string(s: &[u8], pos: usize) -> (r: Option<(Vec<u8>, usize)>)
    requires
        pos <= s@.len(),
    ensures
        r matches Some(p) ==> pos < p.1 <= s@.len(),
        forall|x: Seq<u8>|
            #![trigger esc(x)]
            (pos + esc(x).len() < s@.len()
                && s@.subrange(pos as int, pos + esc(x).len()) == esc(x)
                && s@[pos + esc(x).len()] == 34)
            ==> (r matches Some(p) && p.0@ == x && p.1 == pos + esc(x).len() + 1),
{
    let mut out: Vec<u8> = Vec::new();
    let mut i: usize = pos;
    loop
        invariant
            pos <= i <= s@.len(),
            esc(out@) == s@.subrange(pos as int, i as int),
        decreases s@.len() - i,
    {
        if i >= s.len() {
            proof {
                assert forall|x: Seq<u8>|
                    (pos + esc(x).len() < s@.len()
                        && s@.subrange(pos as int, pos + esc(x).len()) == esc(x)
                        && s@[pos + esc(x).len()] == 34) implies false by {
                    lemma_scan_position(s@, pos as int, i as int, out@, x);
                }
            }
            return None;
        }
        let b = s[i];
        if b == 34 {
            proof {
                assert forall|x: Seq<u8>|
                    (pos + esc(x).len() < s@.len()
                        && s@.subrange(pos as int, pos + esc(x).len()) == esc(x)
                        && s@[pos + esc(x).len()] == 34) implies out@ == x
                        && i == pos + esc(x).len() by {
                    lemma_scan_position(s@, pos as int, i as int, out@, x);
                    if x.len() > out@.len() {
                        let rest = x.skip(out@.len() as int);
                        assert(rest.len() > 0);
                        assert(esc(rest) == esc_byte(rest[0]) + esc(rest.skip(1)));
                        lemma_esc_byte_first(rest[0]);
                        assert(esc(rest)[0] == s@[i as int]);
                        assert(false);
                    }
                    assert(out@ == x.take(x.len() as int));
                    assert(x.take(x.len() as int) =~= x);
                    assert(esc(x.skip(x.len() as int)) =~= Seq::<u8>::empty());
                    assert(s@.subrange(i as int, pos + esc(x).len()).len() == 0);
                }
            }
            return Some((out, i + 1));
        } else if b == 92 {
            proof {
                assert forall|x: Seq<u8>|
                    (pos + esc(x).len() < s@.len()
                        && s@.subrange(pos as int, pos + esc(x).len()) == esc(x)
                        && s@[pos + esc(x).len()] == 34) implies x.len() > out@.len()
                        && esc_byte(x.skip(out@.len() as int)[0])[0] == 92
                        && i + esc_byte(x.skip(out@.len() as int)[0]).len() <= pos + esc(x).len() by {
                    lemma_scan_position(s@, pos as int, i as int, out@, x);
                    if x.len() == out@.len() {
                        assert(esc(x.skip(out@.len() as int)) =~= Seq::<u8>::empty());
                        assert(i == pos + esc(x).len());
                        assert(false);
                    }
                    let rest = x.skip(out@.len() as int);
                    assert(esc(rest) == esc_byte(rest[0]) + esc(rest.skip(1)));
                    lemma_esc_byte_first(rest[0]);
                    assert(esc(rest)[0] == s@[i as int]);
                    assert(esc(rest).len() == pos + esc(x).len() - i);
                    assert(esc_byte(rest[0]).len() <= esc(rest).len());
                }
            }
            if i + 1 >= s.len() {
                proof {
                    assert forall|x: Seq<u8>|
                        (pos + esc(x).len() < s@.len()
                            && s@.subrange(pos as int, pos + esc(x).len()) == esc(x)
                            && s@[pos + esc(x).len()] == 34) implies false by {
                        lemma_scan_position(s@, pos as int, i as int, out@, x);
                        let rest = x.skip(out@.len() as int);
                        lemma_esc_byte_first(rest[0]);
                        assert(esc_byte(rest[0]).len() >= 2 || esc_byte(rest[0]) == seq![rest[0]]);
                        assert(esc_byte(rest[0])[0] == 92);
                        if rest[0] >= 32 && rest[0] != 34 && rest[0] != 92 {
                            assert(esc_byte(rest[0]) == seq![rest[0]]);
                            assert(rest[0] == 92);
                            assert(false);
                        }
                        assert(esc_byte(rest[0]).len() >= 2);
                        assert(i + 2 <= pos + esc(x).len());
                        assert(i + 1 < s@.len());
                    }
                }
                return None;
            }
            let e = s[i + 1];
            proof {
                assert forall|x: Seq<u8>|
                    (pos + esc(x).len() < s@.len()
                        && s@.subrange(pos as int, pos + esc(x).len()) == esc(x)
                        && s@[pos + esc(x).len()] == 34) implies esc_byte(
                    x.skip(out@.len() as int)[0])[1] == e@ by {
                    lemma_scan_position(s@, pos as int, i as int, out@, x);
                    let rest = x.skip(out@.len() as int);
                    lemma_esc_byte_first(rest[0]);
                    if rest[0] >= 32 && rest[0] != 34 && rest[0] != 92 {
                        assert(esc_byte(rest[0])[0] == rest[0]);
                        assert(false);
                    }
                    assert(esc_byte(rest[0]).len() >= 2);
                    assert(esc(rest) == esc_byte(rest[0]) + esc(rest.skip(1)));
                    assert(esc(rest)[1] == esc_byte(rest[0])[1]);
                    assert(esc(rest)[1] == s@[i + 1]);
                }
            }
            if e == 34 || e == 92 {
                let ghost pre = out@;
                out.push(e);
                proof {
                    lemma_esc_snoc(pre, e);
                    assert(esc_byte(e) =~= seq![92u8, e]);
                    assert(esc(out@) =~= s@.subrange(pos as int, i + 2));
                }
                i = i + 2;
            } else if e == 117 {
                if s.len() - i <= 5 {
                    proof {
                        assert forall|x: Seq<u8>|
                            (pos + esc(x).len() < s@.len()
                                && s@.subrange(pos as int, pos + esc(x).len()) == esc(x)
                                && s@[pos + esc(x).len()] == 34) implies false by {
                            lemma_scan_position(s@, pos as int, i as int, out@, x);
                            let rest = x.skip(out@.len() as int);
                            assert(esc_byte(rest[0])[1] == 117);
                            assert(rest[0] < 32);
                            assert(esc_byte(rest[0]).len() == 6);
                            assert(i + 6 <= pos + esc(x).len());
                            assert(i + 5 < s@.len());
                        }
                    }
                    return None;
                }
                let h0a = s[i + 2];
                let h0b = s[i + 3];
                let h1 = s[i + 4];
                let h2 = s[i + 5];
                proof {
                    assert forall|x: Seq<u8>|
                        (pos + esc(x).len() < s@.len()
                            && s@.subrange(pos as int, pos + esc(x).len()) == esc(x)
                            && s@[pos + esc(x).len()] == 34) implies h0a@ == 48 && h0b@ == 48
                            && (h1@ == 48 || h1@ == 49)
                            && (48 <= h2@ <= 57 || 97 <= h2@ <= 102)
                            && h1@ == hex_digit(x.skip(out@.len() as int)[0] / 16)
                            && h2@ == hex_digit(x.skip(out@.len() as int)[0] % 16)
                            && x.skip(out@.len() as int)[0] < 32 by {
                        lemma_scan_position(s@, pos as int, i as int, out@, x);
                        let rest = x.skip(out@.len() as int);
                        assert(esc_byte(rest[0])[1] == 117);
                        assert(rest[0] < 32);
                        assert(esc_byte(rest[0]).len() == 6);
                        assert(esc(rest) == esc_byte(rest[0]) + esc(rest.skip(1)));
                        assert(esc(rest)[2] == s@[i + 2] && esc(rest)[3] == s@[i + 3]
                            && esc(rest)[4] == s@[i + 4] && esc(rest)[5] == s@[i + 5]);
                        assert(rest[0] / 16 <= 1);
                        assert(rest[0] % 16 < 16);
                    }
                }
                if h0a != 48 || h0b != 48 || !(h1 == 48 || h1 == 49) {
                    return None;
                }
                let lo: u8 = if 48 <= h2 && h2 <= 57 {
                    h2 - 48
                } else if 97 <= h2 && h2 <= 102 {
                    h2 - 87
                } else {
                    255
                };
                if lo == 255 {
                    return None;
                }
                let value: u8 = (h1 - 48) * 16 + lo;
                let ghost pre = out@;
                out.push(value);
                proof {
                    lemma_esc_snoc(pre, value);
                    assert(value < 32);
                    assert(value / 16 == h1 - 48 && value % 16 == lo) by (nonlinear_arith)
                        requires
                            value == (h1@ - 48) * 16 + lo@,
                            h1@ == 48 || h1@ == 49,
                            lo@ < 16,
                    ;
                    assert(hex_digit(value / 16) == h1);
                    assert(hex_digit(value % 16) == h2);
                    assert(esc_byte(value) =~= seq![92u8, 117u8, 48u8, 48u8, h1@, h2@]);
                    assert(esc(out@) =~= s@.subrange(pos as int, i + 6));
                }
                i = i + 6;
            } else {
                proof {
                    assert forall|x: Seq<u8>|
                        (pos + esc(x).len() < s@.len()
                            && s@.subrange(pos as int, pos + esc(x).len()) == esc(x)
                            && s@[pos + esc(x).len()] == 34) implies false by {
                        lemma_scan_position(s@, pos as int, i as int, out@, x);
                        let rest = x.skip(out@.len() as int);
                        lemma_esc_byte_first(rest[0]);
                        if rest[0] == 34 {
                            assert(esc_byte(rest[0])[1] == 34);
                        } else if rest[0] == 92 {
                            assert(esc_byte(rest[0])[1] == 92);
                        } else if rest[0] < 32 {
                            assert(esc_byte(rest[0])[1] == 117);
                        } else {
                            assert(esc_byte(rest[0])[0] == rest[0]);
                        }
                    }
                }
                return None;
            }
        } else if b < 32 {
            proof {
                assert forall|x: Seq<u8>|
                    (pos + esc(x).len() < s@.len()
                        && s@.subrange(pos as int, pos + esc(x).len()) == esc(x)
                        && s@[pos + esc(x).len()] == 34) implies false by {
                    lemma_scan_position(s@, pos as int, i as int, out@, x);
                    if x.len() == out@.len() {
                        assert(esc(x.skip(out@.len() as int)) =~= Seq::<u8>::empty());
                        assert(i == pos + esc(x).len());
                        assert(false);
                    }
                    let rest = x.skip(out@.len() as int);
                    assert(esc(rest) == esc_byte(rest[0]) + esc(rest.skip(1)));
                    lemma_esc_byte_first(rest[0]);
                    assert(esc(rest)[0] == s@[i as int]);
                }
            }
            return None;
        } else {
            let ghost pre = out@;
            out.push(b);
            proof {
                lemma_esc_snoc(pre, b);
                assert(esc_byte(b) =~= seq![b@]);
                assert(esc(out@) =~= s@.subrange(pos as int, i + 1));
            }
            i = i + 1;
        }
    }
}


/// Reads a run of decimal digits from `pos`, capping at `i64::MAX`. Finds
/// every canonical number a claim can carry.
fn parse_u64(s: &[u8], pos: usize) -> (r: Option<(u64, usize)>)
    requires
        pos <= s@.len(),
    ensures
        r matches Some(p) ==> pos < p.1 <= s@.len() && p.0 <= 0x7fff_ffff_ffff_ffff,
        forall|n: nat|
            #![trigger dec_nat(n)]
            (n <= 0x7fff_ffff_ffff_ffff
                && pos + dec_nat(n).len() < s@.len()
                && s@.subrange(pos as int, pos + dec_nat(n).len()) == dec_nat(n)
                && !(48 <= s@[pos + dec_nat(n).len()] <= 57))
            ==> (r matches Some(p) && p.0 as nat == n && p.1 == pos + dec_nat(n).len()),
{
    let mut acc: u64 = 0;
    let mut i: usize = pos;
    loop
        invariant
            pos <= i <= s@.len(),
            forall|j: int| pos <= j < i ==> 48 <= #[trigger] s@[j] <= 57,
            acc as nat == dec_val(s@.subrange(pos as int, i as int)),
            acc <= 0x7fff_ffff_ffff_ffff,
        decreases s@.len() - i,
    {
        if i >= s.len() || !(48 <= s[i] && s[i] <= 57) {
            if i == pos {
                proof {
                    assert forall|n: nat|
                        (n <= 0x7fff_ffff_ffff_ffff
                            && pos + dec_nat(n).len() < s@.len()
                            && s@.subrange(pos as int, pos + dec_nat(n).len()) == dec_nat(n)
                            && !(48 <= s@[pos + dec_nat(n).len()] <= 57)) implies false by {
                        lemma_dec_digits(n);
                        assert(s@[pos as int] == dec_nat(n)[0]);
                    }
                }
                return None;
            }
            proof {
                assert forall|n: nat|
                    (n <= 0x7fff_ffff_ffff_ffff
                        && pos + dec_nat(n).len() < s@.len()
                        && s@.subrange(pos as int, pos + dec_nat(n).len()) == dec_nat(n)
                        && !(48 <= s@[pos + dec_nat(n).len()] <= 57)) implies acc as nat == n
                        && i == pos + dec_nat(n).len() by {
                    lemma_dec_digits(n);
                    let k = dec_nat(n).len() as int;
                    if i < pos + k {
                        assert(s@[i as int] == dec_nat(n)[i - pos]);
                        assert(48 <= s@[i as int] <= 57);
                        assert(i < s@.len());
                        assert(false);
                    }
                    if i > pos + k {
                        assert(48 <= s@[pos + k] <= 57);
                        assert(false);
                    }
                    assert(s@.subrange(pos as int, i as int) == dec_nat(n));
                    lemma_dec_val(n);
                }
            }
            return Some((acc, i));
        }
        let d = s[i] - 48;
        let limit: u64 = (0x7fff_ffff_ffff_ffff - d as u64) / 10;
        if acc > limit {
            proof {
                assert forall|n: nat|
                    (n <= 0x7fff_ffff_ffff_ffff
                        && pos + dec_nat(n).len() < s@.len()
                        && s@.subrange(pos as int, pos + dec_nat(n).len()) == dec_nat(n)
                        && !(48 <= s@[pos + dec_nat(n).len()] <= 57)) implies false by {
                    lemma_dec_digits(n);
                    let k = dec_nat(n).len() as int;
                    assert(i < pos + k) by {
                        if i >= pos + k {
                            assert(48 <= s@[pos + k] <= 57) by {
                                if i == pos + k {
                                } else {
                                    assert(pos <= pos + k < i);
                                }
                            }
                            assert(false);
                        }
                    }
                    assert(s@.subrange(pos as int, i + 1) == dec_nat(n).take(i + 1 - pos)) by {
                        assert(s@.subrange(pos as int, i + 1) =~= dec_nat(n).take(i + 1 - pos));
                    }
                    lemma_dec_val_prefix(dec_nat(n), i + 1 - pos);
                    lemma_dec_val(n);
                    assert(s@.subrange(pos as int, i + 1).drop_last() =~= s@.subrange(
                        pos as int, i as int));
                    assert(dec_val(s@.subrange(pos as int, i + 1)) == acc as nat * 10 + d as nat);
                    assert(acc as nat * 10 + d as nat <= n);
                    assert(acc as nat <= (0x7fff_ffff_ffff_ffff - d as nat) / 10) by (nonlinear_arith)
                        requires
                            acc as nat * 10 + d as nat <= 0x7fff_ffff_ffff_ffff,
                    ;
                }
            }
            return None;
        }
        proof {
            assert(acc * 10 + d as u64 <= 0x7fff_ffff_ffff_ffff) by (nonlinear_arith)
                requires
                    acc <= (0x7fff_ffff_ffff_ffff - d as u64) / 10,
                    d as u64 <= 255,
            ;
            assert(s@.subrange(pos as int, i + 1).drop_last() =~= s@.subrange(
                pos as int, i as int));
        }
        acc = acc * 10 + d as u64;
        i = i + 1;
    }
}

/// Steps over one expected byte.
fn expect_byte(s: &[u8], pos: usize, b: u8) -> (r: Option<usize>)
    requires
        pos <= s@.len(),
    ensures
        (r matches Some(p)) <==> (pos < s@.len() && s@[pos as int] == b),
        r matches Some(p) ==> p == pos + 1,
{
    if pos < s.len() && s[pos] == b {
        Some(pos + 1)
    } else {
        None
    }
}

fn expect_la(s: &[u8], pos: usize) -> (r: Option<usize>)
    requires
        pos <= s@.len(),
    ensures
        (r matches Some(p)) <==> (pos + 8 <= s@.len()
            && s@.subrange(pos as int, pos + 8) == lit_a()),
        r matches Some(p) ==> p == pos + 8,
{
    if s.len() - pos < 8 {
        proof {
            assert(s@.subrange(pos as int, pos + 8) != lit_a() || pos + 8 > s@.len());
        }
        return None;
    }
    if s[pos + 0] == 123 && s[pos + 1] == 34 && s[pos + 2] == 115 && s[pos + 3] == 117 && s[pos + 4] == 98 && s[pos + 5] == 34 && s[pos + 6] == 58 && s[pos + 7] == 34 {
        proof {
            assert(s@.subrange(pos as int, pos + 8) =~= lit_a());
        }
        Some(pos + 8)
    } else {
        proof {
            if s@.subrange(pos as int, pos + 8) == lit_a() {
                assert(s@[pos + 0] == (lit_a())[0]);
                assert(s@[pos + 1] == (lit_a())[1]);
                assert(s@[pos + 2] == (lit_a())[2]);
                assert(s@[pos + 3] == (lit_a())[3]);
                assert(s@[pos + 4] == (lit_a())[4]);
                assert(s@[pos + 5] == (lit_a())[5]);
                assert(s@[pos + 6] == (lit_a())[6]);
                assert(s@[pos + 7] == (lit_a())[7]);
                assert(false);
            }
        }
        None
    }
}

fn expect_lb2(s: &[u8], pos: usize) -> (r: Option<usize>)
    requires
        pos <= s@.len(),
    ensures
        (r matches Some(p)) <==> (pos + 7 <= s@.len()
            && s@.subrange(pos as int, pos + 7) == lit_b().skip(1)),
        r matches Some(p) ==> p == pos + 7,
{
    if s.len() - pos < 7 {
        proof {
            assert(s@.subrange(pos as int, pos + 7) != lit_b().skip(1) || pos + 7 > s@.len());
        }
        return None;
    }
    if s[pos + 0] == 44 && s[pos + 1] == 34 && s[pos + 2] == 101 && s[pos + 3] == 120 && s[pos + 4] == 112 && s[pos + 5] == 34 && s[pos + 6] == 58 {
        proof {
            assert(s@.subrange(pos as int, pos + 7) =~= lit_b().skip(1));
        }
        Some(pos + 7)
    } else {
        proof {
            if s@.subrange(pos as int, pos + 7) == lit_b().skip(1) {
                assert(s@[pos + 0] == (lit_b().skip(1))[0]);
                assert(s@[pos + 1] == (lit_b().skip(1))[1]);
                assert(s@[pos + 2] == (lit_b().skip(1))[2]);
                assert(s@[pos + 3] == (lit_b().skip(1))[3]);
                assert(s@[pos + 4] == (lit_b().skip(1))[4]);
                assert(s@[pos + 5] == (lit_b().skip(1))[5]);
                assert(s@[pos + 6] == (lit_b().skip(1))[6]);
                assert(false);
            }
        }
        None
    }
}

fn expect_lc(s: &[u8], pos: usize) -> (r: Option<usize>)
    requires
        pos <= s@.len(),
    ensures
        (r matches Some(p)) <==> (pos + 7 <= s@.len()
            && s@.subrange(pos as int, pos + 7) == lit_c()),
        r matches Some(p) ==> p == pos + 7,
{
    if s.len() - pos < 7 {
        proof {
            assert(s@.subrange(pos as int, pos + 7) != lit_c() || pos + 7 > s@.len());
        }
        return None;
    }
    if s[pos + 0] == 44 && s[pos + 1] == 34 && s[pos + 2] == 105 && s[pos + 3] == 97 && s[pos + 4] == 116 && s[pos + 5] == 34 && s[pos + 6] == 58 {
        proof {
            assert(s@.subrange(pos as int, pos + 7) =~= lit_c());
        }
        Some(pos + 7)
    } else {
        proof {
            if s@.subrange(pos as int, pos + 7) == lit_c() {
                assert(s@[pos + 0] == (lit_c())[0]);
                assert(s@[pos + 1] == (lit_c())[1]);
                assert(s@[pos + 2] == (lit_c())[2]);
                assert(s@[pos + 3] == (lit_c())[3]);
                assert(s@[pos + 4] == (lit_c())[4]);
                assert(s@[pos + 5] == (lit_c())[5]);
                assert(s@[pos + 6] == (lit_c())[6]);
                assert(false);
            }
        }
        None
    }
}

fn expect_ld(s: &[u8], pos: usize) -> (r: Option<usize>)
    requires
        pos <= s@.len(),
    ensures
        (r matches Some(p)) <==> (pos + 8 <= s@.len()
            && s@.subrange(pos as int, pos + 8) == lit_d()),
        r matches Some(p) ==> p == pos + 8,
{
    if s.len() - pos < 8 {
        proof {
            assert(s@.subrange(pos as int, pos + 8) != lit_d() || pos + 8 > s@.len());
        }
        return None;
    }
    if s[pos + 0] == 44 && s[pos + 1] == 34 && s[pos + 2] == 106 && s[pos + 3] == 116 && s[pos + 4] == 105 && s[pos + 5] == 34 && s[pos + 6] == 58 && s[pos + 7] == 34 {
        proof {
            assert(s@.subrange(pos as int, pos + 8) =~= lit_d());
        }
        Some(pos + 8)
    } else {
        proof {
            if s@.subrange(pos as int, pos + 8) == lit_d() {
                assert(s@[pos + 0] == (lit_d())[0]);
                assert(s@[pos + 1] == (lit_d())[1]);
                assert(s@[pos + 2] == (lit_d())[2]);
                assert(s@[pos + 3] == (lit_d())[3]);
                assert(s@[pos + 4] == (lit_d())[4]);
                assert(s@[pos + 5] == (lit_d())[5]);
                assert(s@[pos + 6] == (lit_d())[6]);
                assert(s@[pos + 7] == (lit_d())[7]);
                assert(false);
            }
        }
        None
    }
}

fn expect_le2(s: &[u8], pos: usize) -> (r: Option<usize>)
    requires
        pos <= s@.len(),
    ensures
        (r matches Some(p)) <==> (pos + 10 <= s@.len()
            && s@.subrange(pos as int, pos + 10) == lit_e().skip(1)),
        r matches Some(p) ==> p == pos + 10,
{
    if s.len() - pos < 10 {
        proof {
            assert(s@.subrange(pos as int, pos + 10) != lit_e().skip(1) || pos + 10 > s@.len());
        }
        return None;
    }
    if s[pos + 0] == 44 && s[pos + 1] == 34 && s[pos + 2] == 101 && s[pos + 3] == 109 && s[pos + 4] == 97 && s[pos + 5] == 105 && s[pos + 6] == 108 && s[pos + 7] == 34 && s[pos + 8] == 58 && s[pos + 9] == 34 {
        proof {
            assert(s@.subrange(pos as int, pos + 10) =~= lit_e().skip(1));
        }
        Some(pos + 10)
    } else {
        proof {
            if s@.subrange(pos as int, pos + 10) == lit_e().skip(1) {
                assert(s@[pos + 0] == (lit_e().skip(1))[0]);
                assert(s@[pos + 1] == (lit_e().skip(1))[1]);
                assert(s@[pos + 2] == (lit_e().skip(1))[2]);
                assert(s@[pos + 3] == (lit_e().skip(1))[3]);
                assert(s@[pos + 4] == (lit_e().skip(1))[4]);
                assert(s@[pos + 5] == (lit_e().skip(1))[5]);
                assert(s@[pos + 6] == (lit_e().skip(1))[6]);
                assert(s@[pos + 7] == (lit_e().skip(1))[7]);
                assert(s@[pos + 8] == (lit_e().skip(1))[8]);
                assert(s@[pos + 9] == (lit_e().skip(1))[9]);
                assert(false);
            }
        }
        None
    }
}

fn expect_lf2(s: &[u8], pos: usize) -> (r: Option<usize>)
    requires
        pos <= s@.len(),
    ensures
        (r matches Some(p)) <==> (pos + 15 <= s@.len()
            && s@.subrange(pos as int, pos + 15) == lit_f().skip(1)),
        r matches Some(p) ==> p == pos + 15,
{
    if s.len() - pos < 15 {
        proof {
            assert(s@.subrange(pos as int, pos + 15) != lit_f().skip(1) || pos + 15 > s@.len());
        }
        return None;
    }
    if s[pos + 0] == 44 && s[pos + 1] == 34 && s[pos + 2] == 102 && s[pos + 3] == 105 && s[pos + 4] == 114 && s[pos + 5] == 115 && s[pos + 6] == 116 && s[pos + 7] == 95 && s[pos + 8] == 110 && s[pos + 9] == 97 && s[pos + 10] == 109 && s[pos + 11] == 101 && s[pos + 12] == 34 && s[pos + 13] == 58 && s[pos + 14] == 34 {
        proof {
            assert(s@.subrange(pos as int, pos + 15) =~= lit_f().skip(1));
        }
        Some(pos + 15)
    } else {
        proof {
            if s@.subrange(pos as int, pos + 15) == lit_f().skip(1) {
                assert(s@[pos + 0] == (lit_f().skip(1))[0]);
                assert(s@[pos + 1] == (lit_f().skip(1))[1]);
                assert(s@[pos + 2] == (lit_f().skip(1))[2]);
                assert(s@[pos + 3] == (lit_f().skip(1))[3]);
                assert(s@[pos + 4] == (lit_f().skip(1))[4]);
                assert(s@[pos + 5] == (lit_f().skip(1))[5]);
                assert(s@[pos + 6] == (lit_f().skip(1))[6]);
                assert(s@[pos + 7] == (lit_f().skip(1))[7]);
                assert(s@[pos + 8] == (lit_f().skip(1))[8]);
                assert(s@[pos + 9] == (lit_f().skip(1))[9]);
                assert(s@[pos + 10] == (lit_f().skip(1))[10]);
                assert(s@[pos + 11] == (lit_f().skip(1))[11]);
                assert(s@[pos + 12] == (lit_f().skip(1))[12]);
                assert(s@[pos + 13] == (lit_f().skip(1))[13]);
                assert(s@[pos + 14] == (lit_f().skip(1))[14]);
                assert(false);
            }
        }
        None
    }
}

fn expect_lg2(s: &[u8], pos: usize) -> (r: Option<usize>)
    requires
        pos <= s@.len(),
    ensures
        (r matches Some(p)) <==> (pos + 14 <= s@.len()
            && s@.subrange(pos as int, pos + 14) == lit_g().skip(1)),
        r matches Some(p) ==> p == pos + 14,
{
    if s.len() - pos < 14 {
        proof {
            assert(s@.subrange(pos as int, pos + 14) != lit_g().skip(1) || pos + 14 > s@.len());
        }
        return None;
    }
    if s[pos + 0] == 44 && s[pos + 1] == 34 && s[pos + 2] == 108 && s[pos + 3] == 97 && s[pos + 4] == 115 && s[pos + 5] == 116 && s[pos + 6] == 95 && s[pos + 7] == 110 && s[pos + 8] == 97 && s[pos + 9] == 109 && s[pos + 10] == 101 && s[pos + 11] == 34 && s[pos + 12] == 58 && s[pos + 13] == 34 {
        proof {
            assert(s@.subrange(pos as int, pos + 14) =~= lit_g().skip(1));
        }
        Some(pos + 14)
    } else {
        proof {
            if s@.subrange(pos as int, pos + 14) == lit_g().skip(1) {
                assert(s@[pos + 0] == (lit_g().skip(1))[0]);
                assert(s@[pos + 1] == (lit_g().skip(1))[1]);
                assert(s@[pos + 2] == (lit_g().skip(1))[2]);
                assert(s@[pos + 3] == (lit_g().skip(1))[3]);
                assert(s@[pos + 4] == (lit_g().skip(1))[4]);
                assert(s@[pos + 5] == (lit_g().skip(1))[5]);
                assert(s@[pos + 6] == (lit_g().skip(1))[6]);
                assert(s@[pos + 7] == (lit_g().skip(1))[7]);
                assert(s@[pos + 8] == (lit_g().skip(1))[8]);
                assert(s@[pos + 9] == (lit_g().skip(1))[9]);
                assert(s@[pos + 10] == (lit_g().skip(1))[10]);
                assert(s@[pos + 11] == (lit_g().skip(1))[11]);
                assert(s@[pos + 12] == (lit_g().skip(1))[12]);
                assert(s@[pos + 13] == (lit_g().skip(1))[13]);
                assert(false);
            }
        }
        None
    }
}

fn expect_lh2(s: &[u8], pos: usize) -> (r: Option<usize>)
    requires
        pos <= s@.len(),
    ensures
        (r matches Some(p)) <==> (pos + 9 <= s@.len()
            && s@.subrange(pos as int, pos + 9) == lit_h().skip(1)),
        r matches Some(p) ==> p == pos + 9,
{
    if s.len() - pos < 9 {
        proof {
            assert(s@.subrange(pos as int, pos + 9) != lit_h().skip(1) || pos + 9 > s@.len());
        }
        return None;
    }
    if s[pos + 0] == 44 && s[pos + 1] == 34 && s[pos + 2] == 114 && s[pos + 3] == 111 && s[pos + 4] == 108 && s[pos + 5] == 101 && s[pos + 6] == 34 && s[pos + 7] == 58 && s[pos + 8] == 34 {
        proof {
            assert(s@.subrange(pos as int, pos + 9) =~= lit_h().skip(1));
        }
        Some(pos + 9)
    } else {
        proof {
            if s@.subrange(pos as int, pos + 9) == lit_h().skip(1) {
                assert(s@[pos + 0] == (lit_h().skip(1))[0]);
                assert(s@[pos + 1] == (lit_h().skip(1))[1]);
                assert(s@[pos + 2] == (lit_h().skip(1))[2]);
                assert(s@[pos + 3] == (lit_h().skip(1))[3]);
                assert(s@[pos + 4] == (lit_h().skip(1))[4]);
                assert(s@[pos + 5] == (lit_h().skip(1))[5]);
                assert(s@[pos + 6] == (lit_h().skip(1))[6]);
                assert(s@[pos + 7] == (lit_h().skip(1))[7]);
                assert(s@[pos + 8] == (lit_h().skip(1))[8]);
                assert(false);
            }
        }
        None
    }
}


/// Where each piece of the canonical payload text stands.
#[verifier::rlimit(100)]
proof fn lemma_claims_json_parts(c: ClaimsData)
    ensures
        ({
            let j = claims_json(c);
            let o1: int = 8 + esc(c.sub).len() as int;
            let o2: int = o1 + 8;
            let o3: int = o2 + dec_nat(c.exp as nat).len();
            let o4: int = o3 + 7;
            let o5: int = o4 + dec_nat(c.iat as nat).len();
            let o6: int = o5 + 8;
            let o7: int = o6 + esc(c.jti).len();
            let o8: int = o7 + 11;
            let o9: int = o8 + esc(c.email).len();
            let o10: int = o9 + 16;
            let o11: int = o10 + esc(c.first_name).len();
            let o12: int = o11 + 15;
            let o13: int = o12 + esc(c.last_name).len();
            let o14: int = o13 + 10;
            &&& j.len() == o14 + (if c.role is User { 6int } else { 7int })
            &&& j.subrange(0, 8) == lit_a()
            &&& j.subrange(8, o1) == esc(c.sub)
            &&& j.subrange(o1, o2) == lit_b()
            &&& j.subrange(o2, o3) == dec_nat(c.exp as nat)
            &&& j.subrange(o3, o4) == lit_c()
            &&& j.subrange(o4, o5) == dec_nat(c.iat as nat)
            &&& j.subrange(o5, o6) == lit_d()
            &&& j.subrange(o6, o7) == esc(c.jti)
            &&& j.subrange(o7, o8) == lit_e()
            &&& j.subrange(o8, o9) == esc(c.email)
            &&& j.subrange(o9, o10) == lit_f()
            &&& j.subrange(o10, o11) == esc(c.first_name)
            &&& j.subrange(o11, o12) == lit_g()
            &&& j.subrange(o12, o13) == esc(c.last_name)
            &&& j.subrange(o13, o14) == lit_h()
            &&& j.subrange(o14, j.len() as int)
                == (if c.role is User { lit_user() } else { lit_admin() })
            &&& j.subrange(o1 + 1, o2) == lit_b().skip(1)
            &&& j.subrange(o7 + 1, o8) == lit_e().skip(1)
            &&& j.subrange(o9 + 1, o10) == lit_f().skip(1)
            &&& j.subrange(o11 + 1, o12) == lit_g().skip(1)
            &&& j[o1] == 34 && j[o3] == 44 && j[o5] == 44 && j[o7] == 34 && j[o9] == 34
            &&& j.subrange(o13 + 1, o14) == lit_h().skip(1)
            &&& j[o11] == 34 && j[o13] == 34
            &&& c.role is User ==> j[o14] == 85 && j[o14 + 1] == 115 && j[o14 + 2] == 101
                && j[o14 + 3] == 114 && j[o14 + 4] == 34 && j[o14 + 5] == 125
            &&& c.role is Admin ==> j[o14] == 65 && j[o14 + 1] == 100 && j[o14 + 2] == 109
                && j[o14 + 3] == 105 && j[o14 + 4] == 110 && j[o14 + 5] == 34
                && j[o14 + 6] == 125
        }),
{
    let j = claims_json(c);

        let o1: int = 8 + esc(c.sub).len() as int;
        let o2: int = o1 + 8;
        let o3: int = o2 + dec_nat(c.exp as nat).len();
        let o4: int = o3 + 7;
        let o5: int = o4 + dec_nat(c.iat as nat).len();
        let o6: int = o5 + 8;
        let o7: int = o6 + esc(c.jti).len();
        let o8: int = o7 + 11;
        let o9: int = o8 + esc(c.email).len();
        let o10: int = o9 + 16;
        let o11: int = o10 + esc(c.first_name).len();
        let o12: int = o11 + 15;
        let o13: int = o12 + esc(c.last_name).len();
        let o14: int = o13 + 10;

    assert(j.subrange(0, 8) =~= lit_a());
    assert(j.subrange(8, o1) =~= esc(c.sub));
    assert(j.subrange(o1, o2) =~= lit_b());
    assert(j.subrange(o2, o3) =~= dec_nat(c.exp as nat));
    assert(j.subrange(o3, o4) =~= lit_c());
    assert(j.subrange(o4, o5) =~= dec_nat(c.iat as nat));
    assert(j.subrange(o5, o6) =~= lit_d());
    assert(j.subrange(o6, o7) =~= esc(c.jti));
    assert(j.subrange(o7, o8) =~= lit_e());
    assert(j.subrange(o8, o9) =~= esc(c.email));
    assert(j.subrange(o9, o10) =~= lit_f());
    assert(j.subrange(o10, o11) =~= esc(c.first_name));
    assert(j.subrange(o11, o12) =~= lit_g());
    assert(j.subrange(o12, o13) =~= esc(c.last_name));
    assert(j.subrange(o13, o14) =~= lit_h());
    assert(j.subrange(o14, j.len() as int)
        =~= (if c.role is User { lit_user() } else { lit_admin() }));
    assert(j.subrange(o1 + 1, o2) =~= lit_b().skip(1));
    assert(j.subrange(o7 + 1, o8) =~= lit_e().skip(1));
    assert(j.subrange(o9 + 1, o10) =~= lit_f().skip(1));
    assert(j.subrange(o11 + 1, o12) =~= lit_g().skip(1));
    assert(j.subrange(o13 + 1, o14) =~= lit_h().skip(1));
    assert(j[o1] == j.subrange(o1, o2)[0]);
    assert(j[o3] == j.subrange(o3, o4)[0]);
    assert(j[o5] == j.subrange(o5, o6)[0]);
    assert(j[o7] == j.subrange(o7, o8)[0]);
    assert(j[o9] == j.subrange(o9, o10)[0]);
    assert(j[o11] == j.subrange(o11, o12)[0]);
    assert(j[o13] == j.subrange(o13, o14)[0]);
    if c.role is User {
        let u = j.subrange(o14, j.len() as int);
        assert(j[o14] == u[0] && j[o14 + 1] == u[1] && j[o14 + 2] == u[2] && j[o14 + 3] == u[3]
            && j[o14 + 4] == u[4] && j[o14 + 5] == u[5]);
    } else {
        let u = j.subrange(o14, j.len() as int);
        assert(j[o14] == u[0] && j[o14 + 1] == u[1] && j[o14 + 2] == u[2] && j[o14 + 3] == u[3]
            && j[o14 + 4] == u[4] && j[o14 + 5] == u[5] && j[o14 + 6] == u[6]);
    }
}



/// Offset of the `jti` string body inside the canonical payload.
pub open spec fn off_jti(c: ClaimsData) -> int {
    8 + esc(c.sub).len() as int + 8 + dec_nat(c.exp as nat).len() + 7 + dec_nat(c.iat as nat).len()
        + 8
}

/// Offset of the role name inside the canonical payload.
pub open spec fn off_role(c: ClaimsData) -> int {
    off_jti(c) + esc(c.jti).len() as int + 11 + esc(c.email).len() + 16 + esc(c.first_name).len()
        + 15 + esc(c.last_name).len() + 10
}

/// Reads the role name that closes a canonical payload.
#[verifier::rlimit(100)]
fn parse_role(s: &[u8], pos: usize) -> (r: Option<Role>)
    requires
        pos <= s@.len(),
    ensures
        forall|c: ClaimsData|
            #![trigger claims_json(c)]
            ((claims_wf(c) && s@ == claims_json(c)) && pos == off_role(c)) ==> (r matches Some(ro) && ro == c.role),
{
    let rem = s.len() - pos;
    if rem == 6 && s[pos] == 85 && s[pos + 1] == 115 && s[pos + 2] == 101 && s[pos + 3] == 114
        && s[pos + 4] == 34 && s[pos + 5] == 125 {
        let res = Some(Role::User);
        proof {
            assert forall|c: ClaimsData| ((claims_wf(c) && s@ == claims_json(c)) && pos == off_role(c)) implies c.role is User by {
                    lemma_claims_json_parts(c);
                    lemma_dec_digits(c.exp as nat);
                    lemma_dec_digits(c.iat as nat);
                    let o1: int = 8 + esc(c.sub).len() as int;
                    let o2: int = o1 + 8;
                    let o3: int = o2 + dec_nat(c.exp as nat).len();
                    let o4: int = o3 + 7;
                    let o5: int = o4 + dec_nat(c.iat as nat).len();
                    let o6: int = o5 + 8;
                    let o7: int = o6 + esc(c.jti).len();
                    let o8: int = o7 + 11;
                    let o9: int = o8 + esc(c.email).len();
                    let o10: int = o9 + 16;
                    let o11: int = o10 + esc(c.first_name).len();
                    let o12: int = o11 + 15;
                    let o13: int = o12 + esc(c.last_name).len();
                    let o14: int = o13 + 10;
                    assert(s@.len() == o14 + (if c.role is User { 6int } else { 7int }));
                    assert(o6 == off_jti(c) && o14 == off_role(c));
                    if c.role is User {
                        assert(s@.len() == o14 + 6);
                        assert(s@.subrange(o14, s@.len() as int) == lit_user());
                        assert(s@[o14] == 85 && s@[o14 + 1] == 115 && s@[o14 + 2] == 101
                            && s@[o14 + 3] == 114 && s@[o14 + 4] == 34 && s@[o14 + 5] == 125);
                    } else {
                        assert(s@.len() == o14 + 7);
                        assert(s@.subrange(o14, s@.len() as int) == lit_admin());
                        assert(s@[o14] == 65 && s@[o14 + 1] == 100 && s@[o14 + 2] == 109
                            && s@[o14 + 3] == 105 && s@[o14 + 4] == 110 && s@[o14 + 5] == 34
                            && s@[o14 + 6] == 125);
                    }
            }
        }
        res
    } else if rem == 7 && s[pos] == 65 && s[pos + 1] == 100 && s[pos + 2] == 109
        && s[pos + 3] == 105 && s[pos + 4] == 110 && s[pos + 5] == 34 && s[pos + 6] == 125 {
        let res = Some(Role::Admin);
        proof {
            assert forall|c: ClaimsData| ((claims_wf(c) && s@ == claims_json(c)) && pos == off_role(c)) implies c.role is Admin by {
                    lemma_claims_json_parts(c);
                    lemma_dec_digits(c.exp as nat);
                    lemma_dec_digits(c.iat as nat);
                    let o1: int = 8 + esc(c.sub).len() as int;
                    let o2: int = o1 + 8;
                    let o3: int = o2 + dec_nat(c.exp as nat).len();
                    let o4: int = o3 + 7;
                    let o5: int = o4 + dec_nat(c.iat as nat).len();
                    let o6: int = o5 + 8;
                    let o7: int = o6 + esc(c.jti).len();
                    let o8: int = o7 + 11;
                    let o9: int = o8 + esc(c.email).len();
                    let o10: int = o9 + 16;
                    let o11: int = o10 + esc(c.first_name).len();
                    let o12: int = o11 + 15;
                    let o13: int = o12 + esc(c.last_name).len();
                    let o14: int = o13 + 10;
                    assert(s@.len() == o14 + (if c.role is User { 6int } else { 7int }));
                    assert(o6 == off_jti(c) && o14 == off_role(c));
                    if c.role is User {
                        assert(s@.len() == o14 + 6);
                        assert(s@.subrange(o14, s@.len() as int) == lit_user());
                        assert(s@[o14] == 85 && s@[o14 + 1] == 115 && s@[o14 + 2] == 101
                            && s@[o14 + 3] == 114 && s@[o14 + 4] == 34 && s@[o14 + 5] == 125);
                    } else {
                        assert(s@.len() == o14 + 7);
                        assert(s@.subrange(o14, s@.len() as int) == lit_admin());
                        assert(s@[o14] == 65 && s@[o14 + 1] == 100 && s@[o14 + 2] == 109
                            && s@[o14 + 3] == 105 && s@[o14 + 4] == 110 && s@[o14 + 5] == 34
                            && s@[o14 + 6] == 125);
                    }
            }
        }
        res
    } else {
        proof {
            assert forall|c: ClaimsData| ((claims_wf(c) && s@ == claims_json(c)) && pos == off_role(c)) implies false by {
                    lemma_claims_json_parts(c);
                    lemma_dec_digits(c.exp as nat);
                    lemma_dec_digits(c.iat as nat);
                    let o1: int = 8 + esc(c.sub).len() as int;
                    let o2: int = o1 + 8;
                    let o3: int = o2 + dec_nat(c.exp as nat).len();
                    let o4: int = o3 + 7;
                    let o5: int = o4 + dec_nat(c.iat as nat).len();
                    let o6: int = o5 + 8;
                    let o7: int = o6 + esc(c.jti).len();
                    let o8: int = o7 + 11;
                    let o9: int = o8 + esc(c.email).len();
                    let o10: int = o9 + 16;
                    let o11: int = o10 + esc(c.first_name).len();
                    let o12: int = o11 + 15;
                    let o13: int = o12 + esc(c.last_name).len();
                    let o14: int = o13 + 10;
                    assert(s@.len() == o14 + (if c.role is User { 6int } else { 7int }));
                    assert(o6 == off_jti(c) && o14 == off_role(c));
                    if c.role is User {
                        assert(s@.len() == o14 + 6);
                        assert(s@.subrange(o14, s@.len() as int) == lit_user());
                        assert(s@[o14] == 85 && s@[o14 + 1] == 115 && s@[o14 + 2] == 101
                            && s@[o14 + 3] == 114 && s@[o14 + 4] == 34 && s@[o14 + 5] == 125);
                    } else {
                        assert(s@.len() == o14 + 7);
                        assert(s@.subrange(o14, s@.len() as int) == lit_admin());
                        assert(s@[o14] == 65 && s@[o14 + 1] == 100 && s@[o14 + 2] == 109
                            && s@[o14 + 3] == 105 && s@[o14 + 4] == 110 && s@[o14 + 5] == 34
                            && s@[o14 + 6] == 125);
                    }
            }
        }
        None
    }
}


/// Offset of the `exp` digits inside the canonical payload.
pub open spec fn off_exp(c: ClaimsData) -> int {
    8 + esc(c.sub).len() as int + 8
}

/// Offset of the `first_name` string body inside the canonical payload.
pub open spec fn off_first(c: ClaimsData) -> int {
    off_jti(c) + esc(c.jti).len() as int + 11 + esc(c.email).len() + 16
}

/// Reads the opening literal and the subject of a canonical payload.
#[verifier::rlimit(100)]
fn parse_head1(s: &[u8]) -> (r: Option<(Vec<u8>, usize)>)
    ensures
        r matches Some(p) ==> p.1 <= s@.len(),
        forall|c: ClaimsData|
            #![trigger claims_json(c)]
            (claims_wf(c) && s@ == claims_json(c)) ==> (r matches Some(p) && p.0@ == c.sub && p.1 == off_exp(c)),
{
    let p1 = match expect_la(s, 0) {
        Some(p) => p,
        None => {
            proof {
                assert forall|c: ClaimsData| (claims_wf(c) && s@ == claims_json(c)) implies false by {
                    lemma_claims_json_parts(c);
                    lemma_dec_digits(c.exp as nat);
                    lemma_dec_digits(c.iat as nat);
                    let o1: int = 8 + esc(c.sub).len() as int;
                    let o2: int = o1 + 8;
                    let o3: int = o2 + dec_nat(c.exp as nat).len();
                    let o4: int = o3 + 7;
                    let o5: int = o4 + dec_nat(c.iat as nat).len();
                    let o6: int = o5 + 8;
                    let o7: int = o6 + esc(c.jti).len();
                    let o8: int = o7 + 11;
                    let o9: int = o8 + esc(c.email).len();
                    let o10: int = o9 + 16;
                    let o11: int = o10 + esc(c.first_name).len();
                    let o12: int = o11 + 15;
                    let o13: int = o12 + esc(c.last_name).len();
                    let o14: int = o13 + 10;
                    assert(s@.len() == o14 + (if c.role is User { 6int } else { 7int }));
                    assert(8 <= s@.len());
                }
            }
            return None;
        }
    };
    let sp = match parse_string(s, p1) {
        Some(x) => x,
        None => {
            proof {
                assert forall|c: ClaimsData| (claims_wf(c) && s@ == claims_json(c)) implies false by {
                    lemma_claims_json_parts(c);
                    lemma_dec_digits(c.exp as nat);
                    lemma_dec_digits(c.iat as nat);
                    let o1: int = 8 + esc(c.sub).len() as int;
                    let o2: int = o1 + 8;
                    let o3: int = o2 + dec_nat(c.exp as nat).len();
                    let o4: int = o3 + 7;
                    let o5: int = o4 + dec_nat(c.iat as nat).len();
                    let o6: int = o5 + 8;
                    let o7: int = o6 + esc(c.jti).len();
                    let o8: int = o7 + 11;
                    let o9: int = o8 + esc(c.email).len();
                    let o10: int = o9 + 16;
                    let o11: int = o10 + esc(c.first_name).len();
                    let o12: int = o11 + 15;
                    let o13: int = o12 + esc(c.last_name).len();
                    let o14: int = o13 + 10;
                    assert(s@.len() == o14 + (if c.role is User { 6int } else { 7int }));
                    assert(8 <= s@.len());
                    assert(p1 == 8);
                    assert(8 + esc(c.sub).len() < s@.len());
                    assert(s@.subrange(8, o1) == esc(c.sub));
                }
            }
            return None;
        }
    };
    let p3 = match expect_lb2(s, sp.1) {
        Some(p) => p,
        None => {
            proof {
                assert forall|c: ClaimsData| (claims_wf(c) && s@ == claims_json(c)) implies false by {
                    lemma_claims_json_parts(c);
                    lemma_dec_digits(c.exp as nat);
                    lemma_dec_digits(c.iat as nat);
                    let o1: int = 8 + esc(c.sub).len() as int;
                    let o2: int = o1 + 8;
                    let o3: int = o2 + dec_nat(c.exp as nat).len();
                    let o4: int = o3 + 7;
                    let o5: int = o4 + dec_nat(c.iat as nat).len();
                    let o6: int = o5 + 8;
                    let o7: int = o6 + esc(c.jti).len();
                    let o8: int = o7 + 11;
                    let o9: int = o8 + esc(c.email).len();
                    let o10: int = o9 + 16;
                    let o11: int = o10 + esc(c.first_name).len();
                    let o12: int = o11 + 15;
                    let o13: int = o12 + esc(c.last_name).len();
                    let o14: int = o13 + 10;
                    assert(s@.len() == o14 + (if c.role is User { 6int } else { 7int }));
                    assert(8 <= s@.len());
                    assert(p1 == 8);
                    assert(8 + esc(c.sub).len() < s@.len());
                    assert(s@.subrange(8, o1) == esc(c.sub));
                    assert(sp.0@ == c.sub && sp.1 == o1 + 1);
                    assert(o1 + 1 + 7 <= s@.len());
                }
            }
            return None;
        }
    };
    let res = Some((sp.0, p3));
    proof {
        assert forall|c: ClaimsData| (claims_wf(c) && s@ == claims_json(c)) implies (res matches Some(p) && p.0@ == c.sub && p.1 == off_exp(c)) by {
                    lemma_claims_json_parts(c);
                    lemma_dec_digits(c.exp as nat);
                    lemma_dec_digits(c.iat as nat);
                    let o1: int = 8 + esc(c.sub).len() as int;
                    let o2: int = o1 + 8;
                    let o3: int = o2 + dec_nat(c.exp as nat).len();
                    let o4: int = o3 + 7;
                    let o5: int = o4 + dec_nat(c.iat as nat).len();
                    let o6: int = o5 + 8;
                    let o7: int = o6 + esc(c.jti).len();
                    let o8: int = o7 + 11;
                    let o9: int = o8 + esc(c.email).len();
                    let o10: int = o9 + 16;
                    let o11: int = o10 + esc(c.first_name).len();
                    let o12: int = o11 + 15;
                    let o13: int = o12 + esc(c.last_name).len();
                    let o14: int = o13 + 10;
                    assert(s@.len() == o14 + (if c.role is User { 6int } else { 7int }));
                    assert(8 <= s@.len());
                    assert(p1 == 8);
                    assert(8 + esc(c.sub).len() < s@.len());
                    assert(s@.subrange(8, o1) == esc(c.sub));
                    assert(sp.0@ == c.sub && sp.1 == o1 + 1);
                    assert(o1 + 1 + 7 <= s@.len());
                    assert(p3 == o2);
        }
    }
    res
}

/// Reads the two timestamps of a canonical payload.
#[verifier::rlimit(100)]
fn parse_head2(s: &[u8], pos: usize) -> (r: Option<(u64, u64, usize)>)
    requires
        pos <= s@.len(),
    ensures
        r matches Some(p) ==> p.2 <= s@.len() && p.0 <= 0x7fff_ffff_ffff_ffff
            && p.1 <= 0x7fff_ffff_ffff_ffff,
        forall|c: ClaimsData|
            #![trigger claims_json(c)]
            ((claims_wf(c) && s@ == claims_json(c)) && pos == off_exp(c)) ==> (r matches Some(p) && p.0 as nat == c.exp as nat
                && p.1 as nat == c.iat as nat && p.2 == off_jti(c)),
{
    let ep = match parse_u64(s, pos) {
        Some(x) => x,
        None => {
            proof {
                assert forall|c: ClaimsData| ((claims_wf(c) && s@ == claims_json(c)) && pos == off_exp(c)) implies false by {
                    lemma_claims_json_parts(c);
                    lemma_dec_digits(c.exp as nat);
                    lemma_dec_digits(c.iat as nat);
                    let o1: int = 8 + esc(c.sub).len() as int;
                    let o2: int = o1 + 8;
                    let o3: int = o2 + dec_nat(c.exp as nat).len();
                    let o4: int = o3 + 7;
                    let o5: int = o4 + dec_nat(c.iat as nat).len();
                    let o6: int = o5 + 8;
                    let o7: int = o6 + esc(c.jti).len();
                    let o8: int = o7 + 11;
                    let o9: int = o8 + esc(c.email).len();
                    let o10: int = o9 + 16;
                    let o11: int = o10 + esc(c.first_name).len();
                    let o12: int = o11 + 15;
                    let o13: int = o12 + esc(c.last_name).len();
                    let o14: int = o13 + 10;
                    assert(s@.len() == o14 + (if c.role is User { 6int } else { 7int }));
                    assert(pos == o2);
                    assert(c.exp as nat <= 0x7fff_ffff_ffff_ffff);
                    assert(o2 + dec_nat(c.exp as nat).len() < s@.len());
                    assert(s@.subrange(o2, o3) == dec_nat(c.exp as nat));
                    assert(!(48 <= s@[o3] <= 57));
                }
            }
            return None;
        }
    };
    let p5 = match expect_lc(s, ep.1) {
        Some(p) => p,
        None => {
            proof {
                assert forall|c: ClaimsData| ((claims_wf(c) && s@ == claims_json(c)) && pos == off_exp(c)) implies false by {
                    lemma_claims_json_parts(c);
                    lemma_dec_digits(c.exp as nat);
                    lemma_dec_digits(c.iat as nat);
                    let o1: int = 8 + esc(c.sub).len() as int;
                    let o2: int = o1 + 8;
                    let o3: int = o2 + dec_nat(c.exp as nat).len();
                    let o4: int = o3 + 7;
                    let o5: int = o4 + dec_nat(c.iat as nat).len();
                    let o6: int = o5 + 8;
                    let o7: int = o6 + esc(c.jti).len();
                    let o8: int = o7 + 11;
                    let o9: int = o8 + esc(c.email).len();
                    let o10: int = o9 + 16;
                    let o11: int = o10 + esc(c.first_name).len();
                    let o12: int = o11 + 15;
                    let o13: int = o12 + esc(c.last_name).len();
                    let o14: int = o13 + 10;
                    assert(s@.len() == o14 + (if c.role is User { 6int } else { 7int }));
                    assert(pos == o2);
                    assert(c.exp as nat <= 0x7fff_ffff_ffff_ffff);
                    assert(o2 + dec_nat(c.exp as nat).len() < s@.len());
                    assert(s@.subrange(o2, o3) == dec_nat(c.exp as nat));
                    assert(!(48 <= s@[o3] <= 57));
                    assert(ep.0 as nat == c.exp as nat && ep.1 == o3);
                    assert(o3 + 7 <= s@.len());
                }
            }
            return None;
        }
    };
    let ip = match parse_u64(s, p5) {
        Some(x) => x,
        None => {
            proof {
                assert forall|c: ClaimsData| ((claims_wf(c) && s@ == claims_json(c)) && pos == off_exp(c)) implies false by {
                    lemma_claims_json_parts(c);
                    lemma_dec_digits(c.exp as nat);
                    lemma_dec_digits(c.iat as nat);
                    let o1: int = 8 + esc(c.sub).len() as int;
                    let o2: int = o1 + 8;
                    let o3: int = o2 + dec_nat(c.exp as nat).len();
                    let o4: int = o3 + 7;
                    let o5: int = o4 + dec_nat(c.iat as nat).len();
                    let o6: int = o5 + 8;
                    let o7: int = o6 + esc(c.jti).len();
                    let o8: int = o7 + 11;
                    let o9: int = o8 + esc(c.email).len();
                    let o10: int = o9 + 16;
                    let o11: int = o10 + esc(c.first_name).len();
                    let o12: int = o11 + 15;
                    let o13: int = o12 + esc(c.last_name).len();
                    let o14: int = o13 + 10;
                    assert(s@.len() == o14 + (if c.role is User { 6int } else { 7int }));
                    assert(pos == o2);
                    assert(c.exp as nat <= 0x7fff_ffff_ffff_ffff);
                    assert(o2 + dec_nat(c.exp as nat).len() < s@.len());
                    assert(s@.subrange(o2, o3) == dec_nat(c.exp as nat));
                    assert(!(48 <= s@[o3] <= 57));
                    assert(ep.0 as nat == c.exp as nat && ep.1 == o3);
                    assert(o3 + 7 <= s@.len());
                    assert(p5 == o4);
                    assert(c.iat as nat <= 0x7fff_ffff_ffff_ffff);
                    assert(o4 + dec_nat(c.iat as nat).len() < s@.len());
                    assert(s@.subrange(o4, o5) == dec_nat(c.iat as nat));
                    assert(!(48 <= s@[o5] <= 57));
                }
            }
            return None;
        }
    };
    let p7 = match expect_ld(s, ip.1) {
        Some(p) => p,
        None => {
            proof {
                assert forall|c: ClaimsData| ((claims_wf(c) && s@ == claims_json(c)) && pos == off_exp(c)) implies false by {
                    lemma_claims_json_parts(c);
                    lemma_dec_digits(c.exp as nat);
                    lemma_dec_digits(c.iat as nat);
                    let o1: int = 8 + esc(c.sub).len() as int;
                    let o2: int = o1 + 8;
                    let o3: int = o2 + dec_nat(c.exp as nat).len();
                    let o4: int = o3 + 7;
                    let o5: int = o4 + dec_nat(c.iat as nat).len();
                    let o6: int = o5 + 8;
                    let o7: int = o6 + esc(c.jti).len();
                    let o8: int = o7 + 11;
                    let o9: int = o8 + esc(c.email).len();
                    let o10: int = o9 + 16;
                    let o11: int = o10 + esc(c.first_name).len();
                    let o12: int = o11 + 15;
                    let o13: int = o12 + esc(c.last_name).len();
                    let o14: int = o13 + 10;
                    assert(s@.len() == o14 + (if c.role is User { 6int } else { 7int }));
                    assert(pos == o2);
                    assert(c.exp as nat <= 0x7fff_ffff_ffff_ffff);
                    assert(o2 + dec_nat(c.exp as nat).len() < s@.len());
                    assert(s@.subrange(o2, o3) == dec_nat(c.exp as nat));
                    assert(!(48 <= s@[o3] <= 57));
                    assert(ep.0 as nat == c.exp as nat && ep.1 == o3);
                    assert(o3 + 7 <= s@.len());
                    assert(p5 == o4);
                    assert(c.iat as nat <= 0x7fff_ffff_ffff_ffff);
                    assert(o4 + dec_nat(c.iat as nat).len() < s@.len());
                    assert(s@.subrange(o4, o5) == dec_nat(c.iat as nat));
                    assert(!(48 <= s@[o5] <= 57));
                    assert(ip.0 as nat == c.iat as nat && ip.1 == o5);
                    assert(o5 + 8 <= s@.len());
                }
            }
            return None;
        }
    };
    let res = Some((ep.0, ip.0, p7));
    proof {
        assert forall|c: ClaimsData| ((claims_wf(c) && s@ == claims_json(c)) && pos == off_exp(c)) implies (res matches Some(p) && p.0 as nat == c.exp as nat && p.1 as nat == c.iat as nat && p.2 == off_jti(c)) by {
                    lemma_claims_json_parts(c);
                    lemma_dec_digits(c.exp as nat);
                    lemma_dec_digits(c.iat as nat);
                    let o1: int = 8 + esc(c.sub).len() as int;
                    let o2: int = o1 + 8;
                    let o3: int = o2 + dec_nat(c.exp as nat).len();
                    let o4: int = o3 + 7;
                    let o5: int = o4 + dec_nat(c.iat as nat).len();
                    let o6: int = o5 + 8;
                    let o7: int = o6 + esc(c.jti).len();
                    let o8: int = o7 + 11;
                    let o9: int = o8 + esc(c.email).len();
                    let o10: int = o9 + 16;
                    let o11: int = o10 + esc(c.first_name).len();
                    let o12: int = o11 + 15;
                    let o13: int = o12 + esc(c.last_name).len();
                    let o14: int = o13 + 10;
                    assert(s@.len() == o14 + (if c.role is User { 6int } else { 7int }));
                    assert(pos == o2);
                    assert(c.exp as nat <= 0x7fff_ffff_ffff_ffff);
                    assert(o2 + dec_nat(c.exp as nat).len() < s@.len());
                    assert(s@.subrange(o2, o3) == dec_nat(c.exp as nat));
                    assert(!(48 <= s@[o3] <= 57));
                    assert(ep.0 as nat == c.exp as nat && ep.1 == o3);
                    assert(o3 + 7 <= s@.len());
                    assert(p5 == o4);
                    assert(c.iat as nat <= 0x7fff_ffff_ffff_ffff);
                    assert(o4 + dec_nat(c.iat as nat).len() < s@.len());
                    assert(s@.subrange(o4, o5) == dec_nat(c.iat as nat));
                    assert(!(48 <= s@[o5] <= 57));
                    assert(ip.0 as nat == c.iat as nat && ip.1 == o5);
                    assert(o5 + 8 <= s@.len());
                    assert(p7 == o6);
        }
    }
    res
}

/// Reads the token identifier and the email of a canonical payload.
#[verifier::rlimit(100)]
fn parse_texts1(s: &[u8], pos: usize) -> (r: Option<(Vec<u8>, Vec<u8>, usize)>)
    requires
        pos <= s@.len(),
    ensures
        r matches Some(p) ==> p.2 <= s@.len(),
        forall|c: ClaimsData|
            #![trigger claims_json(c)]
            ((claims_wf(c) && s@ == claims_json(c)) && pos == off_jti(c)) ==> (r matches Some(p) && p.0@ == c.jti
                && p.1@ == c.email && p.2 == off_first(c)),
{
    let jp = match parse_string(s, pos) {
        Some(x) => x,
        None => {
            proof {
                assert forall|c: ClaimsData| ((claims_wf(c) && s@ == claims_json(c)) && pos == off_jti(c)) implies false by {
                    lemma_claims_json_parts(c);
                    lemma_dec_digits(c.exp as nat);
                    lemma_dec_digits(c.iat as nat);
                    let o1: int = 8 + esc(c.sub).len() as int;
                    let o2: int = o1 + 8;
                    let o3: int = o2 + dec_nat(c.exp as nat).len();
                    let o4: int = o3 + 7;
                    let o5: int = o4 + dec_nat(c.iat as nat).len();
                    let o6: int = o5 + 8;
                    let o7: int = o6 + esc(c.jti).len();
                    let o8: int = o7 + 11;
                    let o9: int = o8 + esc(c.email).len();
                    let o10: int = o9 + 16;
                    let o11: int = o10 + esc(c.first_name).len();
                    let o12: int = o11 + 15;
                    let o13: int = o12 + esc(c.last_name).len();
                    let o14: int = o13 + 10;
                    assert(s@.len() == o14 + (if c.role is User { 6int } else { 7int }));
                    assert(pos == o6);
                    assert(o6 + esc(c.jti).len() < s@.len());
                    assert(s@.subrange(o6, o7) == esc(c.jti));
                }
            }
            return None;
        }
    };
    let p9 = match expect_le2(s, jp.1) {
        Some(p) => p,
        None => {
            proof {
                assert forall|c: ClaimsData| ((claims_wf(c) && s@ == claims_json(c)) && pos == off_jti(c)) implies false by {
                    lemma_claims_json_parts(c);
                    lemma_dec_digits(c.exp as nat);
                    lemma_dec_digits(c.iat as nat);
                    let o1: int = 8 + esc(c.sub).len() as int;
                    let o2: int = o1 + 8;
                    let o3: int = o2 + dec_nat(c.exp as nat).len();
                    let o4: int = o3 + 7;
                    let o5: int = o4 + dec_nat(c.iat as nat).len();
                    let o6: int = o5 + 8;
                    let o7: int = o6 + esc(c.jti).len();
                    let o8: int = o7 + 11;
                    let o9: int = o8 + esc(c.email).len();
                    let o10: int = o9 + 16;
                    let o11: int = o10 + esc(c.first_name).len();
                    let o12: int = o11 + 15;
                    let o13: int = o12 + esc(c.last_name).len();
                    let o14: int = o13 + 10;
                    assert(s@.len() == o14 + (if c.role is User { 6int } else { 7int }));
                    assert(pos == o6);
                    assert(o6 + esc(c.jti).len() < s@.len());
                    assert(s@.subrange(o6, o7) == esc(c.jti));
                    assert(jp.0@ == c.jti && jp.1 == o7 + 1);
                    assert(o7 + 1 + 10 <= s@.len());
                }
            }
            return None;
        }
    };
    let mp = match parse_string(s, p9) {
        Some(x) => x,
        None => {
            proof {
                assert forall|c: ClaimsData| ((claims_wf(c) && s@ == claims_json(c)) && pos == off_jti(c)) implies false by {
                    lemma_claims_json_parts(c);
                    lemma_dec_digits(c.exp as nat);
                    lemma_dec_digits(c.iat as nat);
                    let o1: int = 8 + esc(c.sub).len() as int;
                    let o2: int = o1 + 8;
                    let o3: int = o2 + dec_nat(c.exp as nat).len();
                    let o4: int = o3 + 7;
                    let o5: int = o4 + dec_nat(c.iat as nat).len();
                    let o6: int = o5 + 8;
                    let o7: int = o6 + esc(c.jti).len();
                    let o8: int = o7 + 11;
                    let o9: int = o8 + esc(c.email).len();
                    let o10: int = o9 + 16;
                    let o11: int = o10 + esc(c.first_name).len();
                    let o12: int = o11 + 15;
                    let o13: int = o12 + esc(c.last_name).len();
                    let o14: int = o13 + 10;
                    assert(s@.len() == o14 + (if c.role is User { 6int } else { 7int }));
                    assert(pos == o6);
                    assert(o6 + esc(c.jti).len() < s@.len());
                    assert(s@.subrange(o6, o7) == esc(c.jti));
                    assert(jp.0@ == c.jti && jp.1 == o7 + 1);
                    assert(o7 + 1 + 10 <= s@.len());
                    assert(p9 == o8);
                    assert(o8 + esc(c.email).len() < s@.len());
                    assert(s@.subrange(o8, o9) == esc(c.email));
                }
            }
            return None;
        }
    };
    let p11 = match expect_lf2(s, mp.1) {
        Some(p) => p,
        None => {
            proof {
                assert forall|c: ClaimsData| ((claims_wf(c) && s@ == claims_json(c)) && pos == off_jti(c)) implies false by {
                    lemma_claims_json_parts(c);
                    lemma_dec_digits(c.exp as nat);
                    lemma_dec_digits(c.iat as nat);
                    let o1: int = 8 + esc(c.sub).len() as int;
                    let o2: int = o1 + 8;
                    let o3: int = o2 + dec_nat(c.exp as nat).len();
                    let o4: int = o3 + 7;
                    let o5: int = o4 + dec_nat(c.iat as nat).len();
                    let o6: int = o5 + 8;
                    let o7: int = o6 + esc(c.jti).len();
                    let o8: int = o7 + 11;
                    let o9: int = o8 + esc(c.email).len();
                    let o10: int = o9 + 16;
                    let o11: int = o10 + esc(c.first_name).len();
                    let o12: int = o11 + 15;
                    let o13: int = o12 + esc(c.last_name).len();
                    let o14: int = o13 + 10;
                    assert(s@.len() == o14 + (if c.role is User { 6int } else { 7int }));
                    assert(pos == o6);
                    assert(o6 + esc(c.jti).len() < s@.len());
                    assert(s@.subrange(o6, o7) == esc(c.jti));
                    assert(jp.0@ == c.jti && jp.1 == o7 + 1);
                    assert(o7 + 1 + 10 <= s@.len());
                    assert(p9 == o8);
                    assert(o8 + esc(c.email).len() < s@.len());
                    assert(s@.subrange(o8, o9) == esc(c.email));
                    assert(mp.0@ == c.email && mp.1 == o9 + 1);
                    assert(o9 + 1 + 15 <= s@.len());
                }
            }
            return None;
        }
    };
    let res = Some((jp.0, mp.0, p11));
    proof {
        assert forall|c: ClaimsData| ((claims_wf(c) && s@ == claims_json(c)) && pos == off_jti(c)) implies (res matches Some(p) && p.0@ == c.jti && p.1@ == c.email && p.2 == off_first(c)) by {
                    lemma_claims_json_parts(c);
                    lemma_dec_digits(c.exp as nat);
                    lemma_dec_digits(c.iat as nat);
                    let o1: int = 8 + esc(c.sub).len() as int;
                    let o2: int = o1 + 8;
                    let o3: int = o2 + dec_nat(c.exp as nat).len();
                    let o4: int = o3 + 7;
                    let o5: int = o4 + dec_nat(c.iat as nat).len();
                    let o6: int = o5 + 8;
                    let o7: int = o6 + esc(c.jti).len();
                    let o8: int = o7 + 11;
                    let o9: int = o8 + esc(c.email).len();
                    let o10: int = o9 + 16;
                    let o11: int = o10 + esc(c.first_name).len();
                    let o12: int = o11 + 15;
                    let o13: int = o12 + esc(c.last_name).len();
                    let o14: int = o13 + 10;
                    assert(s@.len() == o14 + (if c.role is User { 6int } else { 7int }));
                    assert(pos == o6);
                    assert(o6 + esc(c.jti).len() < s@.len());
                    assert(s@.subrange(o6, o7) == esc(c.jti));
                    assert(jp.0@ == c.jti && jp.1 == o7 + 1);
                    assert(o7 + 1 + 10 <= s@.len());
                    assert(p9 == o8);
                    assert(o8 + esc(c.email).len() < s@.len());
                    assert(s@.subrange(o8, o9) == esc(c.email));
                    assert(mp.0@ == c.email && mp.1 == o9 + 1);
                    assert(o9 + 1 + 15 <= s@.len());
                    assert(p11 == o10);
        }
    }
    res
}

/// Reads the two name fields of a canonical payload.
#[verifier::rlimit(100)]
fn parse_texts2(s: &[u8], pos: usize) -> (r: Option<(Vec<u8>, Vec<u8>, usize)>)
    requires
        pos <= s@.len(),
    ensures
        r matches Some(p) ==> p.2 <= s@.len(),
        forall|c: ClaimsData|
            #![trigger claims_json(c)]
            ((claims_wf(c) && s@ == claims_json(c)) && pos == off_first(c)) ==> (r matches Some(p) && p.0@ == c.first_name
                && p.1@ == c.last_name && p.2 == off_role(c)),
{
    let fp = match parse_string(s, pos) {
        Some(x) => x,
        None => {
            proof {
                assert forall|c: ClaimsData| ((claims_wf(c) && s@ == claims_json(c)) && pos == off_first(c)) implies false by {
                    lemma_claims_json_parts(c);
                    lemma_dec_digits(c.exp as nat);
                    lemma_dec_digits(c.iat as nat);
                    let o1: int = 8 + esc(c.sub).len() as int;
                    let o2: int = o1 + 8;
                    let o3: int = o2 + dec_nat(c.exp as nat).len();
                    let o4: int = o3 + 7;
                    let o5: int = o4 + dec_nat(c.iat as nat).len();
                    let o6: int = o5 + 8;
                    let o7: int = o6 + esc(c.jti).len();
                    let o8: int = o7 + 11;
                    let o9: int = o8 + esc(c.email).len();
                    let o10: int = o9 + 16;
                    let o11: int = o10 + esc(c.first_name).len();
                    let o12: int = o11 + 15;
                    let o13: int = o12 + esc(c.last_name).len();
                    let o14: int = o13 + 10;
                    assert(s@.len() == o14 + (if c.role is User { 6int } else { 7int }));
                    assert(pos == o10);
                    assert(o10 + esc(c.first_name).len() < s@.len());
                    assert(s@.subrange(o10, o11) == esc(c.first_name));
                }
            }
            return None;
        }
    };
    let p13 = match expect_lg2(s, fp.1) {
        Some(p) => p,
        None => {
            proof {
                assert forall|c: ClaimsData| ((claims_wf(c) && s@ == claims_json(c)) && pos == off_first(c)) implies false by {
                    lemma_claims_json_parts(c);
                    lemma_dec_digits(c.exp as nat);
                    lemma_dec_digits(c.iat as nat);
                    let o1: int = 8 + esc(c.sub).len() as int;
                    let o2: int = o1 + 8;
                    let o3: int = o2 + dec_nat(c.exp as nat).len();
                    let o4: int = o3 + 7;
                    let o5: int = o4 + dec_nat(c.iat as nat).len();
                    let o6: int = o5 + 8;
                    let o7: int = o6 + esc(c.jti).len();
                    let o8: int = o7 + 11;
                    let o9: int = o8 + esc(c.email).len();
                    let o10: int = o9 + 16;
                    let o11: int = o10 + esc(c.first_name).len();
                    let o12: int = o11 + 15;
                    let o13: int = o12 + esc(c.last_name).len();
                    let o14: int = o13 + 10;
                    assert(s@.len() == o14 + (if c.role is User { 6int } else { 7int }));
                    assert(pos == o10);
                    assert(o10 + esc(c.first_name).len() < s@.len());
                    assert(s@.subrange(o10, o11) == esc(c.first_name));
                    assert(fp.0@ == c.first_name && fp.1 == o11 + 1);
                    assert(o11 + 1 + 14 <= s@.len());
                }
            }
            return None;
        }
    };
    let lp = match parse_string(s, p13) {
        Some(x) => x,
        None => {
            proof {
                assert forall|c: ClaimsData| ((claims_wf(c) && s@ == claims_json(c)) && pos == off_first(c)) implies false by {
                    lemma_claims_json_parts(c);
                    lemma_dec_digits(c.exp as nat);
                    lemma_dec_digits(c.iat as nat);
                    let o1: int = 8 + esc(c.sub).len() as int;
                    let o2: int = o1 + 8;
                    let o3: int = o2 + dec_nat(c.exp as nat).len();
                    let o4: int = o3 + 7;
                    let o5: int = o4 + dec_nat(c.iat as nat).len();
                    let o6: int = o5 + 8;
                    let o7: int = o6 + esc(c.jti).len();
                    let o8: int = o7 + 11;
                    let o9: int = o8 + esc(c.email).len();
                    let o10: int = o9 + 16;
                    let o11: int = o10 + esc(c.first_name).len();
                    let o12: int = o11 + 15;
                    let o13: int = o12 + esc(c.last_name).len();
                    let o14: int = o13 + 10;
                    assert(s@.len() == o14 + (if c.role is User { 6int } else { 7int }));
                    assert(pos == o10);
                    assert(o10 + esc(c.first_name).len() < s@.len());
                    assert(s@.subrange(o10, o11) == esc(c.first_name));
                    assert(fp.0@ == c.first_name && fp.1 == o11 + 1);
                    assert(o11 + 1 + 14 <= s@.len());
                    assert(p13 == o12);
                    assert(o12 + esc(c.last_name).len() < s@.len());
                    assert(s@.subrange(o12, o13) == esc(c.last_name));
                }
            }
            return None;
        }
    };
    let p15 = match expect_lh2(s, lp.1) {
        Some(p) => p,
        None => {
            proof {
                assert forall|c: ClaimsData| ((claims_wf(c) && s@ == claims_json(c)) && pos == off_first(c)) implies false by {
                    lemma_claims_json_parts(c);
                    lemma_dec_digits(c.exp as nat);
                    lemma_dec_digits(c.iat as nat);
                    let o1: int = 8 + esc(c.sub).len() as int;
                    let o2: int = o1 + 8;
                    let o3: int = o2 + dec_nat(c.exp as nat).len();
                    let o4: int = o3 + 7;
                    let o5: int = o4 + dec_nat(c.iat as nat).len();
                    let o6: int = o5 + 8;
                    let o7: int = o6 + esc(c.jti).len();
                    let o8: int = o7 + 11;
                    let o9: int = o8 + esc(c.email).len();
                    let o10: int = o9 + 16;
                    let o11: int = o10 + esc(c.first_name).len();
                    let o12: int = o11 + 15;
                    let o13: int = o12 + esc(c.last_name).len();
                    let o14: int = o13 + 10;
                    assert(s@.len() == o14 + (if c.role is User { 6int } else { 7int }));
                    assert(pos == o10);
                    assert(o10 + esc(c.first_name).len() < s@.len());
                    assert(s@.subrange(o10, o11) == esc(c.first_name));
                    assert(fp.0@ == c.first_name && fp.1 == o11 + 1);
                    assert(o11 + 1 + 14 <= s@.len());
                    assert(p13 == o12);
                    assert(o12 + esc(c.last_name).len() < s@.len());
                    assert(s@.subrange(o12, o13) == esc(c.last_name));
                    assert(lp.0@ == c.last_name && lp.1 == o13 + 1);
                    assert(o13 + 1 + 9 <= s@.len());
                }
            }
            return None;
        }
    };
    let res = Some((fp.0, lp.0, p15));
    proof {
        assert forall|c: ClaimsData| ((claims_wf(c) && s@ == claims_json(c)) && pos == off_first(c)) implies (res matches Some(p) && p.0@ == c.first_name && p.1@ == c.last_name && p.2 == off_role(c)) by {
                    lemma_claims_json_parts(c);
                    lemma_dec_digits(c.exp as nat);
                    lemma_dec_digits(c.iat as nat);
                    let o1: int = 8 + esc(c.sub).len() as int;
                    let o2: int = o1 + 8;
                    let o3: int = o2 + dec_nat(c.exp as nat).len();
                    let o4: int = o3 + 7;
                    let o5: int = o4 + dec_nat(c.iat as nat).len();
                    let o6: int = o5 + 8;
                    let o7: int = o6 + esc(c.jti).len();
                    let o8: int = o7 + 11;
                    let o9: int = o8 + esc(c.email).len();
                    let o10: int = o9 + 16;
                    let o11: int = o10 + esc(c.first_name).len();
                    let o12: int = o11 + 15;
                    let o13: int = o12 + esc(c.last_name).len();
                    let o14: int = o13 + 10;
                    assert(s@.len() == o14 + (if c.role is User { 6int } else { 7int }));
                    assert(pos == o10);
                    assert(o10 + esc(c.first_name).len() < s@.len());
                    assert(s@.subrange(o10, o11) == esc(c.first_name));
                    assert(fp.0@ == c.first_name && fp.1 == o11 + 1);
                    assert(o11 + 1 + 14 <= s@.len());
                    assert(p13 == o12);
                    assert(o12 + esc(c.last_name).len() < s@.len());
                    assert(s@.subrange(o12, o13) == esc(c.last_name));
                    assert(lp.0@ == c.last_name && lp.1 == o13 + 1);
                    assert(o13 + 1 + 9 <= s@.len());
                    assert(p15 == o14);
        }
    }
    res
}

/// Reads a whole canonical payload. Finds every well-formed claim set whose
/// text this is; what it accepts beyond those is screened by the caller.
#[verifier::rlimit(100)]
pub fn parse_claims(s: &[u8]) -> (r: Option<Claims>)
    ensures
        r matches Some(cl) ==> 0 <= cl.exp && 0 <= cl.iat,
        forall|c: ClaimsData|
            #![trigger claims_json(c)]
            (claims_wf(c) && s@ == claims_json(c)) ==> (r matches Some(cl) && cl.model() == c),
{
    let head = match parse_head1(s) {
        Some(x) => x,
        None => {
            return None;
        }
    };
    let (sub_b, p3) = head;
    let nums = match parse_head2(s, p3) {
        Some(x) => x,
        None => {
            return None;
        }
    };
    let (expv, iatv, p7) = nums;
    let texts1 = match parse_texts1(s, p7) {
        Some(x) => x,
        None => {
            return None;
        }
    };
    let (jti_b, email_b, p11) = texts1;
    let texts2 = match parse_texts2(s, p11) {
        Some(x) => x,
        None => {
            return None;
        }
    };
    let (first_b, last_b, p15) = texts2;
    let role = match parse_role(s, p15) {
        Some(x) => x,
        None => {
            return None;
        }
    };
    let ghost subv = sub_b@;
    let ghost jtiv = jti_b@;
    let ghost emailv = email_b@;
    let ghost firstv = first_b@;
    let ghost lastv = last_b@;
    let sub_s = match bytes_to_string(sub_b) {
        Some(x) => x,
        None => {
            proof {
                assert forall|c: ClaimsData| (claims_wf(c) && s@ == claims_json(c)) implies false by {
                    assert(subv == c.sub && valid_utf8(c.sub));
                }
            }
            return None;
        }
    };
    let jti_s = match bytes_to_string(jti_b) {
        Some(x) => x,
        None => {
            proof {
                assert forall|c: ClaimsData| (claims_wf(c) && s@ == claims_json(c)) implies false by {
                    assert(jtiv == c.jti && valid_utf8(c.jti));
                }
            }
            return None;
        }
    };
    let email_s = match bytes_to_string(email_b) {
        Some(x) => x,
        None => {
            proof {
                assert forall|c: ClaimsData| (claims_wf(c) && s@ == claims_json(c)) implies false by {
                    assert(emailv == c.email && valid_utf8(c.email));
                }
            }
            return None;
        }
    };
    let first_s = match bytes_to_string(first_b) {
        Some(x) => x,
        None => {
            proof {
                assert forall|c: ClaimsData| (claims_wf(c) && s@ == claims_json(c)) implies false by {
                    assert(firstv == c.first_name && valid_utf8(c.first_name));
                }
            }
            return None;
        }
    };
    let last_s = match bytes_to_string(last_b) {
        Some(x) => x,
        None => {
            proof {
                assert forall|c: ClaimsData| (claims_wf(c) && s@ == claims_json(c)) implies false by {
                    assert(lastv == c.last_name && valid_utf8(c.last_name));
                }
            }
            return None;
        }
    };
    let cl = Claims {
        sub: sub_s,
        exp: expv as i64,
        iat: iatv as i64,
        jti: jti_s,
        email: email_s,
        first_name: first_s,
        last_name: last_s,
        role,
    };
    proof {
        assert forall|c: ClaimsData| (claims_wf(c) && s@ == claims_json(c)) implies cl.model() == c by {
            assert(role == c.role);
            assert(encode_utf8(cl.sub@) == c.sub);
            assert(encode_utf8(cl.jti@) == c.jti);
            assert(encode_utf8(cl.email@) == c.email);
            assert(encode_utf8(cl.first_name@) == c.first_name);
            assert(encode_utf8(cl.last_name@) == c.last_name);
            assert(cl.exp as int == c.exp);
            assert(cl.iat as int == c.iat);
            assert(cl.model() =~= c);
        }
    }
    Some(cl)
}


/// Two canonical string bodies that start at the same place and are each
/// closed by a quote are the same.
proof fn lemma_esc_field_eq(s: Seq<u8>, pos: int, a: Seq<u8>, b: Seq<u8>)
    requires
        0 <= pos,
        pos + esc(a).len() < s.len(),
        pos + esc(b).len() < s.len(),
        s.subrange(pos, pos + esc(a).len()) == esc(a),
        s[pos + esc(a).len()] == 34,
        s.subrange(pos, pos + esc(b).len()) == esc(b),
        s[pos + esc(b).len()] == 34,
    ensures
        a == b,
{
    lemma_scan_position(s, pos, pos + esc(a).len(), a, b);
    if b.len() > a.len() {
        let rest = b.skip(a.len() as int);
        assert(rest.len() > 0);
        assert(esc(rest) == esc_byte(rest[0]) + esc(rest.skip(1)));
        lemma_esc_byte_first(rest[0]);
        assert(esc(rest)[0] == s[pos + esc(a).len()]);
        assert(false);
    }
    assert(a == b.take(b.len() as int));
    assert(b.take(b.len() as int) =~= b);
}

/// Two canonical digit runs that start at the same place and are each closed
/// by a non-digit carry the same number.
proof fn lemma_dec_field_eq(s: Seq<u8>, pos: int, m: nat, n: nat)
    requires
        0 <= pos,
        pos + dec_nat(m).len() < s.len(),
        pos + dec_nat(n).len() < s.len(),
        s.subrange(pos, pos + dec_nat(m).len()) == dec_nat(m),
        !(48 <= s[pos + dec_nat(m).len()] <= 57),
        s.subrange(pos, pos + dec_nat(n).len()) == dec_nat(n),
        !(48 <= s[pos + dec_nat(n).len()] <= 57),
    ensures
        m == n,
{
    lemma_dec_digits(m);
    lemma_dec_digits(n);
    if dec_nat(m).len() < dec_nat(n).len() {
        assert(s[pos + dec_nat(m).len()] == dec_nat(n)[dec_nat(m).len() as int]);
        assert(false);
    }
    if dec_nat(n).len() < dec_nat(m).len() {
        assert(s[pos + dec_nat(n).len()] == dec_nat(m)[dec_nat(n).len() as int]);
        assert(false);
    }
    assert(dec_nat(m) =~= dec_nat(n));
    lemma_dec_val(m);
    lemma_dec_val(n);
}

/// The canonical payload text determines the claims.
#[verifier::rlimit(100)]
pub proof fn lemma_claims_json_inj(c1: ClaimsData, c2: ClaimsData)
    requires
        claims_wf(c1),
        claims_wf(c2),
        claims_json(c1) == claims_json(c2),
    ensures
        c1 == c2,
{
    let s = claims_json(c1);
    lemma_claims_json_parts(c1);
    lemma_claims_json_parts(c2);
    lemma_dec_digits(c1.exp as nat);
    lemma_dec_digits(c1.iat as nat);
    lemma_dec_digits(c2.exp as nat);
    lemma_dec_digits(c2.iat as nat);
    let o1: int = 8 + esc(c1.sub).len() as int;
    let o2: int = o1 + 8;
    let o3: int = o2 + dec_nat(c1.exp as nat).len();
    let o4: int = o3 + 7;
    let o5: int = o4 + dec_nat(c1.iat as nat).len();
    let o6: int = o5 + 8;
    let o7: int = o6 + esc(c1.jti).len();
    let o8: int = o7 + 11;
    let o9: int = o8 + esc(c1.email).len();
    let o10: int = o9 + 16;
    let o11: int = o10 + esc(c1.first_name).len();
    let o12: int = o11 + 15;
    let o13: int = o12 + esc(c1.last_name).len();
    let o14: int = o13 + 10;
    let q1: int = 8 + esc(c2.sub).len() as int;
    let q2: int = q1 + 8;
    let q3: int = q2 + dec_nat(c2.exp as nat).len();
    let q4: int = q3 + 7;
    let q5: int = q4 + dec_nat(c2.iat as nat).len();
    let q6: int = q5 + 8;
    let q7: int = q6 + esc(c2.jti).len();
    let q8: int = q7 + 11;
    let q9: int = q8 + esc(c2.email).len();
    let q10: int = q9 + 16;
    let q11: int = q10 + esc(c2.first_name).len();
    let q12: int = q11 + 15;
    let q13: int = q12 + esc(c2.last_name).len();
    let q14: int = q13 + 10;
    lemma_esc_field_eq(s, 8, c1.sub, c2.sub);
    assert(o1 == q1 && o2 == q2);
    lemma_dec_field_eq(s, o2, c1.exp as nat, c2.exp as nat);
    assert(c1.exp == c2.exp);
    assert(o3 == q3 && o4 == q4);
    lemma_dec_field_eq(s, o4, c1.iat as nat, c2.iat as nat);
    assert(c1.iat == c2.iat);
    assert(o5 == q5 && o6 == q6);
    lemma_esc_field_eq(s, o6, c1.jti, c2.jti);
    assert(o7 == q7 && o8 == q8);
    lemma_esc_field_eq(s, o8, c1.email, c2.email);
    assert(o9 == q9 && o10 == q10);
    lemma_esc_field_eq(s, o10, c1.first_name, c2.first_name);
    assert(o11 == q11 && o12 == q12);
    lemma_esc_field_eq(s, o12, c1.last_name, c2.last_name);
    assert(o13 == q13 && o14 == q14);
    if c1.role is User && c2.role is Admin {
        assert(s[o14] == 85);
        assert(s[q14] == 65);
        assert(false);
    }
    if c1.role is Admin && c2.role is User {
        assert(s[o14] == 65);
        assert(s[q14] == 85);
        assert(false);
    }
    assert(c1 =~= c2);
}

} // verus!
