//! A bit-stream model of symbol sequences.
//!
//! A sequence of `w`-bit symbols is viewed as one stream of bits, most
//! significant bit first.  `sbits` gives the value of a bit range of that
//! stream as a natural number.  Encoding and decoding are specified by
//! equating the bit stream of a byte sequence (`w == 8`) with the bit
//! stream of the corresponding character-value sequence (`w == 6` for
//! Base64, `w == 5` for Base32, `w == 4` for hex).

use vstd::prelude::*;
use vstd::arithmetic::power2::*;
use vstd::arithmetic::div_mod::*;
use vstd::bits::{
    lemma_u16_low_bits_mask_is_mod, lemma_u16_shl_is_mul, lemma_u16_shr_is_div,
    lemma_low_bits_mask_values, low_bits_mask,
};

verus! {

/// Bit `p` of the stream formed by the `w`-bit symbols of `s`, most
/// significant bit first.  Bits outside the stream read as zero, which
/// models the zero bits that pad a final partial group.
pub open spec fn bit_at(s: Seq<u8>, w: nat, p: int) -> nat {
    if 0 <= p < s.len() * w {
        ((s[p / (w as int)] as nat) / pow2((w - 1 - p % (w as int)) as nat)) % 2
    } else {
        0
    }
}

/// The value of bits `[i, j)` of the stream of `w`-bit symbols of `s`,
/// read as a big-endian natural number.
pub open spec fn sbits(s: Seq<u8>, w: nat, i: int, j: int) -> nat
    decreases j - i,
{
    if i >= j {
        0
    } else {
        sbits(s, w, i, j - 1) * 2 + bit_at(s, w, j - 1)
    }
}

pub proof fn lemma_bit_at_bound(s: Seq<u8>, w: nat, p: int)
    ensures
        bit_at(s, w, p) < 2,
{
    if 0 <= p < s.len() * w {
        lemma_mod_bound(((s[p / (w as int)] as nat) / pow2((w - 1 - p % (w as int)) as nat)) as int, 2);
    }
}

pub proof fn lemma_sbits_bound(s: Seq<u8>, w: nat, i: int, j: int)
    requires
        i <= j,
    ensures
        sbits(s, w, i, j) < pow2((j - i) as nat),
    decreases j - i,
{
    if i == j {
        lemma2_to64();
    } else {
        lemma_sbits_bound(s, w, i, j - 1);
        lemma_pow2_unfold((j - i) as nat);
    }
}

pub proof fn lemma_sbits_split(s: Seq<u8>, w: nat, i: int, k: int, j: int)
    requires
        i <= k <= j,
    ensures
        sbits(s, w, i, j) == sbits(s, w, i, k) * pow2((j - k) as nat) + sbits(s, w, k, j),
    decreases j - k,
{
    if k == j {
        lemma2_to64();
    } else {
        lemma_sbits_split(s, w, i, k, j - 1);
        lemma_pow2_unfold((j - k) as nat);
        let a = sbits(s, w, i, k);
        let p = pow2((j - 1 - k) as nat);
        assert((a * p) * 2 == a * (2 * p)) by (nonlinear_arith);
    }
}

/// The bits of one whole symbol reassemble to the symbol itself.
pub proof fn lemma_symbol_prefix(s: Seq<u8>, w: nat, k: int, c: int)
    requires
        w >= 1,
        0 <= k < s.len(),
        (s[k] as nat) < pow2(w),
        0 <= c <= w,
    ensures
        sbits(s, w, w * k, w * k + c) == (s[k] as nat) / pow2((w - c) as nat),
    decreases c,
{
    let v = s[k] as nat;
    if c == 0 {
        lemma_basic_div(v as int, pow2(w) as int);
    } else {
        lemma_symbol_prefix(s, w, k, c - 1);
        let p = w * k + c - 1;
        assert(0 <= p < s.len() * w && p / (w as int) == k && p % (w as int) == c - 1)
            by (nonlinear_arith)
            requires
                w >= 1,
                0 <= k < s.len(),
                0 < c <= w,
                p == w * k + c - 1,
        ;
        // bit p of the stream is bit (w - c) of the symbol
        assert(bit_at(s, w, p) == (v / pow2((w - c) as nat)) % 2);
        let e = (w - c) as nat;
        // v / pow2(e + 1) == (v / pow2(e)) / 2
        lemma_pow2_unfold((e + 1) as nat);
        lemma_pow2_pos(e);
        lemma_div_denominator(v as int, pow2(e) as int, 2);
        assert(v / pow2((e + 1) as nat) == (v / pow2(e)) / 2);
        // u == (u / 2) * 2 + u % 2
        lemma_fundamental_div_mod((v / pow2(e)) as int, 2);
    }
}

pub proof fn lemma_symbol_value(s: Seq<u8>, w: nat, k: int)
    requires
        w >= 1,
        0 <= k < s.len(),
        (s[k] as nat) < pow2(w),
    ensures
        sbits(s, w, w * k, w * k + w) == s[k] as nat,
{
    lemma_symbol_prefix(s, w, k, w as int);
    lemma2_to64();
}

/// Extracting bit `t` of the value of a `c`-bit range yields the stream bit.
pub proof fn lemma_sbits_bit(s: Seq<u8>, w: nat, i: int, c: int, t: int)
    requires
        0 <= t < c,
    ensures
        (sbits(s, w, i, i + c) / pow2((c - 1 - t) as nat)) % 2 == bit_at(s, w, i + t),
    decreases c,
{
    let a = sbits(s, w, i, i + c - 1);
    let b = bit_at(s, w, i + c - 1);
    assert(sbits(s, w, i, i + c) == a * 2 + b);
    lemma_bit_at_bound(s, w, i + c - 1);
    if t == c - 1 {
        lemma2_to64();
        assert((a * 2 + b) % 2 == b) by (nonlinear_arith)
            requires
                0 <= b < 2,
                a >= 0,
        ;
        assert((a * 2 + b) / 1 == a * 2 + b);
    } else {
        lemma_sbits_bit(s, w, i, c - 1, t);
        // (a * 2 + b) / 2 == a
        assert((a * 2 + b) / 2 == a) by (nonlinear_arith)
            requires
                0 <= b < 2,
                a >= 0,
        ;
        let e = (c - 2 - t) as nat;
        lemma_pow2_unfold((e + 1) as nat);
        lemma_pow2_pos(e);
        // x / (2 * pow2(e)) == (x / 2) / pow2(e)
        lemma_div_denominator((a * 2 + b) as int, 2, pow2(e) as int);
        assert((a * 2 + b) / pow2((c - 1 - t) as nat) == a / pow2(e));
    }
}

/// Bit values of `0 <= p` outside a stream are zero, so ranges there are zero.
pub proof fn lemma_sbits_zero(s: Seq<u8>, w: nat, i: int, j: int)
    requires
        forall|p: int| i <= p < j ==> bit_at(s, w, p) == 0,
    ensures
        sbits(s, w, i, j) == 0,
    decreases j - i,
{
    if i < j {
        lemma_sbits_zero(s, w, i, j - 1);
    }
}

/// A zero range value means every bit in the range is zero.
pub proof fn lemma_sbits_zero_bits(s: Seq<u8>, w: nat, i: int, j: int)
    requires
        sbits(s, w, i, j) == 0,
    ensures
        forall|p: int| i <= p < j ==> bit_at(s, w, p) == 0,
    decreases j - i,
{
    if i < j {
        lemma_sbits_zero_bits(s, w, i, j - 1);
    }
}

/// Two streams agree bit for bit wherever every symbol of the first
/// equals the value of its own bit range in the second.
pub proof fn lemma_stream_eq(s1: Seq<u8>, w1: nat, s2: Seq<u8>, w2: nat)
    requires
        w1 >= 1,
        forall|k: int|
            0 <= k < s1.len() ==> (s1[k] as nat) == sbits(s2, w2, w1 * k, w1 * k + w1),
    ensures
        forall|p: int| 0 <= p < s1.len() * w1 ==> bit_at(s1, w1, p) == bit_at(s2, w2, p),
{
    assert forall|p: int| 0 <= p < s1.len() * w1 implies bit_at(s1, w1, p) == bit_at(
        s2,
        w2,
        p,
    ) by {
        let k = p / (w1 as int);
        let t = p % (w1 as int);
        lemma_fundamental_div_mod(p, w1 as int);
        lemma_mod_bound(p, w1 as int);
        lemma_div_pos_is_pos(p, w1 as int);
        assert(k < s1.len()) by (nonlinear_arith)
            requires
                p < s1.len() * w1,
                p == (w1 as int) * k + t,
                0 <= t < w1,
                w1 >= 1,
                k >= 0,
        ;
        lemma_sbits_bit(s2, w2, w1 * k, w1 as int, t);
    }
}

/// Two streams that agree bit for bit on a range have the same range value.
pub proof fn lemma_sbits_congruence(s1: Seq<u8>, w1: nat, s2: Seq<u8>, w2: nat, i: int, j: int)
    requires
        forall|p: int| i <= p < j ==> bit_at(s1, w1, p) == bit_at(s2, w2, p),
    ensures
        sbits(s1, w1, i, j) == sbits(s2, w2, i, j),
    decreases j - i,
{
    if i < j {
        lemma_sbits_congruence(s1, w1, s2, w2, i, j - 1);
    }
}

/// Appending a symbol does not change the bits of the existing stream.
pub proof fn lemma_sbits_push(s: Seq<u8>, w: nat, x: u8, i: int, j: int)
    requires
        j <= s.len() * w,
    ensures
        sbits(s.push(x), w, i, j) == sbits(s, w, i, j),
{
    assert forall|p: int| i <= p < j implies bit_at(s.push(x), w, p) == bit_at(s, w, p) by {
        if 0 <= p {
            if w >= 1 {
                assert(p / (w as int) < s.len()) by (nonlinear_arith)
                    requires
                        w >= 1,
                        0 <= p,
                        p < s.len() * w,
                ;
                assert(p < s.push(x).len() * w) by (nonlinear_arith)
                    requires
                        p < s.len() * w,
                        s.push(x).len() == s.len() + 1,
                        w >= 0,
                ;
                assert(s.push(x)[p / (w as int)] == s[p / (w as int)]);
            }
        }
    }
    lemma_sbits_congruence(s.push(x), w, s, w, i, j);
}

/// `(x % 2^a) % 2^b == x % 2^b` whenever `b <= a`.
pub proof fn lemma_mod_mod_pow2(x: nat, b: nat, a: nat)
    requires
        b <= a,
    ensures
        (x % pow2(a)) % pow2(b) == x % pow2(b),
{
    lemma_pow2_adds(b, (a - b) as nat);
    lemma_pow2_pos(b);
    lemma_pow2_pos((a - b) as nat);
    let m = pow2(b) as int;
    let k = pow2((a - b) as nat) as int;
    assert(m * k > 0) by (nonlinear_arith)
        requires
            m > 0,
            k > 0,
    ;
    lemma_fundamental_div_mod(x as int, m * k);
    let q = x as int / (m * k);
    let r = x as int % (m * k);
    assert(x as int == (m * k) * q + r);
    lemma_mod_bound(x as int, m * k);
    assert((m * k) * q == m * (k * q)) by (nonlinear_arith);
    lemma_mod_multiples_vanish(k * q, r, m);
    assert((m * (k * q) + r) % m == r % m);
}

/// Shifting `sh` fresh bits into the accumulator extends the tracked low
/// bit segment: if the low `l` bits of `acc` hold the value `s`, then the
/// low `l + sh` bits of `(acc << sh) + v` hold `s * pow2(sh) + v`.
pub proof fn lemma_acc_push(acc: u16, v: u16, sh: nat, l: nat, s: nat)
    requires
        sh == 5 || sh == 6 || sh == 8,
        (v as nat) < pow2(sh),
        l + sh <= 16,
        (acc as nat) % pow2(l) == s,
    ensures
        ((acc << (sh as u16)) as nat) + v <= u16::MAX,
        ((((acc << (sh as u16)) + v) as u16) as nat) % pow2(l + sh) == s * pow2(sh) + v,
{
    lemma2_to64();
    lemma_low_bits_mask_values();
    let mb = (16 - sh) as nat;
    // The left shift keeps exactly the low `16 - sh` bits.
    if sh == 5 {
        assert((acc << 5u16) == (acc & 0x7FF) * 32 && (acc << 5u16) <= 0xFFE0) by (bit_vector);
        lemma_u16_low_bits_mask_is_mod(acc, 11);
    } else if sh == 6 {
        assert((acc << 6u16) == (acc & 0x3FF) * 64 && (acc << 6u16) <= 0xFFC0) by (bit_vector);
        lemma_u16_low_bits_mask_is_mod(acc, 10);
    } else {
        assert((acc << 8u16) == (acc & 0xFF) * 256 && (acc << 8u16) <= 0xFF00) by (bit_vector);
        lemma_u16_low_bits_mask_is_mod(acc, 8);
    }
    let a = (acc as nat) % pow2(mb);
    assert((acc << (sh as u16)) as nat == a * pow2(sh));
    // s is also the low `l` bits of `a`.
    lemma_mod_mod_pow2(acc as nat, l, mb);
    lemma_pow2_pos(l);
    lemma_pow2_pos(sh);
    lemma_pow2_pos(l + sh);
    lemma_mod_bound(a as int, pow2(mb) as int);
    lemma_fundamental_div_mod(a as int, pow2(l) as int);
    let b = a as int / pow2(l) as int;
    assert(a == pow2(l) * b + s);
    lemma_div_pos_is_pos(a as int, pow2(l) as int);
    // a * pow2(sh) + v == pow2(l + sh) * b + (s * pow2(sh) + v)
    lemma_pow2_adds(l, sh);
    assert((pow2(l) * b + s) * pow2(sh) == (pow2(l) * pow2(sh)) * b + s * pow2(sh))
        by (nonlinear_arith);
    // the remainder term is small
    lemma_mod_bound(acc as int, pow2(l) as int);
    assert(s + 1 <= pow2(l));
    assert((s + 1) * pow2(sh) <= pow2(l) * pow2(sh)) by (nonlinear_arith)
        requires
            s + 1 <= pow2(l),
            pow2(sh) > 0,
    ;
    assert((s + 1) * pow2(sh) == s * pow2(sh) + pow2(sh)) by (nonlinear_arith);
    assert(s * pow2(sh) + v < pow2(l + sh));
    lemma_mod_multiples_vanish(b, (s * pow2(sh) + v) as int, pow2(l + sh) as int);
    lemma_small_mod((s * pow2(sh) + v) as nat, pow2(l + sh));
}

/// Extracting the top `sh` bits of the tracked `l`-bit segment of the
/// accumulator yields the segment's leading value, and the remaining low
/// `l - sh` bits still track the segment's tail.
pub proof fn lemma_acc_extract(acc: u16, sh: nat, l: nat, s: nat)
    requires
        sh == 5 || sh == 6 || sh == 8,
        sh <= l <= 16,
        (acc as nat) % pow2(l) == s,
    ensures
        ((acc >> ((l - sh) as u16)) & ((pow2(sh) - 1) as u16)) as nat == s / pow2((l - sh) as nat),
        s / pow2((l - sh) as nat) < pow2(sh),
        (acc as nat) % pow2((l - sh) as nat) == s % pow2((l - sh) as nat),
{
    lemma2_to64();
    lemma_low_bits_mask_values();
    let d = (l - sh) as nat;
    lemma_pow2_pos(d);
    lemma_pow2_pos(sh);
    lemma_pow2_pos(l);
    lemma_u16_shr_is_div(acc, d as u16);
    let q = (acc >> (d as u16)) as u16;
    assert(q as nat == (acc as nat) / pow2(d));
    lemma_u16_low_bits_mask_is_mod(q, sh);
    assert(low_bits_mask(sh) == pow2(sh) - 1);
    // acc == pow2(l) * c + s
    lemma_fundamental_div_mod(acc as int, pow2(l) as int);
    let c = acc as int / pow2(l) as int;
    lemma_div_pos_is_pos(acc as int, pow2(l) as int);
    lemma_mod_bound(acc as int, pow2(l) as int);
    // acc / pow2(d) == pow2(sh) * c + s / pow2(d)
    lemma_pow2_adds(d, sh);
    lemma_fundamental_div_mod(s as int, pow2(d) as int);
    lemma_mod_bound(s as int, pow2(d) as int);
    lemma_div_pos_is_pos(s as int, pow2(d) as int);
    let sq = s as int / pow2(d) as int;
    assert(acc as int == pow2(d) as int * (pow2(sh) as int * c + sq) + (s as int % pow2(d) as int))
        by (nonlinear_arith)
        requires
            acc as int == pow2(l) as int * c + s,
            s as int == pow2(d) as int * sq + (s as int % pow2(d) as int),
            pow2(l) == pow2(d) * pow2(sh),
    ;
    lemma_fundamental_div_mod_converse(
        acc as int,
        pow2(d) as int,
        pow2(sh) as int * c + sq,
        s as int % pow2(d) as int,
    );
    assert(q as int == pow2(sh) as int * c + sq);
    // s / pow2(d) < pow2(sh)
    assert(pow2(l) - 1 == pow2(d) * (pow2(sh) - 1) + (pow2(d) - 1)) by (nonlinear_arith)
        requires
            pow2(l) == pow2(d) * pow2(sh),
            pow2(d) > 0,
    ;
    lemma_fundamental_div_mod_converse(
        pow2(l) as int - 1,
        pow2(d) as int,
        pow2(sh) as int - 1,
        pow2(d) as int - 1,
    );
    lemma_div_is_ordered(s as int, pow2(l) as int - 1, pow2(d) as int);
    assert(sq <= pow2(sh) - 1);
    // (pow2(sh) * c + sq) % pow2(sh) == sq
    lemma_mod_multiples_vanish(c, sq, pow2(sh) as int);
    lemma_small_mod(sq as nat, pow2(sh));
    // remaining low bits
    lemma_mod_mod_pow2(acc as nat, d, l);
}

/// Shifting the tracked `l`-bit segment up to a full character width
/// multiplies it by the power of two of the missing bits.
pub proof fn lemma_acc_final(acc: u16, sh: nat, l: nat, s: nat)
    requires
        sh == 5 || sh == 6,
        0 < l < sh,
        (acc as nat) % pow2(l) == s,
    ensures
        ((acc << ((sh - l) as u16)) & ((pow2(sh) - 1) as u16)) as nat == s * pow2((sh - l) as nat),
        s * pow2((sh - l) as nat) < pow2(sh),
{
    lemma2_to64();
    lemma_low_bits_mask_values();
    let d = (sh - l) as nat;
    lemma_pow2_pos(d);
    lemma_pow2_pos(l);
    lemma_pow2_adds(l, d);
    let du = d as u16;
    if sh == 5 {
        assert(((acc << du) & 0x1F) == ((acc & (0x1Fu16 >> du)) << du) && (acc & (0x1Fu16 >> du))
            <= 0x1F) by (bit_vector)
            requires
                0 < du < 5,
        ;
    } else {
        assert(((acc << du) & 0x3F) == ((acc & (0x3Fu16 >> du)) << du) && (acc & (0x3Fu16 >> du))
            <= 0x3F) by (bit_vector)
            requires
                0 < du < 6,
        ;
    }
    // pow2(sh) - 1 >> d == pow2(l) - 1
    let full = (pow2(sh) - 1) as u16;
    lemma_u16_shr_is_div(full, d as u16);
    assert(pow2(sh) as int - 1 == pow2(d) as int * (pow2(l) as int - 1) + (pow2(d) as int - 1))
        by (nonlinear_arith)
        requires
            pow2(sh) == pow2(l) * pow2(d),
            pow2(d) > 0,
    ;
    lemma_fundamental_div_mod_converse(
        pow2(sh) as int - 1,
        pow2(d) as int,
        pow2(l) as int - 1,
        pow2(d) as int - 1,
    );
    assert((full >> (d as u16)) as nat == pow2(l) - 1);
    lemma_u16_low_bits_mask_is_mod(acc, l);
    assert(low_bits_mask(l) == pow2(l) - 1);
    assert((acc & (full >> (d as u16))) as nat == s);
    // (s << d) == s * pow2(d)
    lemma_mod_bound(acc as int, pow2(l) as int);
    assert(s * pow2(d) + pow2(d) <= pow2(sh)) by (nonlinear_arith)
        requires
            s + 1 <= pow2(l),
            pow2(d) > 0,
            pow2(sh) == pow2(l) * pow2(d),
    ;
    lemma_u16_shl_is_mul((s as u16), d as u16);
}

} // verus!
