//! The shared Base64/Base32 engine.
//!
//! One encoder and one decoder serve all Base64 and Base32 variants; a
//! [`Variant`] value selects the alphabet and the padding policy.  Data
//! bytes flow through a bit accumulator and the branchless character maps
//! of [`crate::chars`], so the only branches taken depend on input
//! lengths and on the variant, never on data values.

use vstd::prelude::*;
use vstd::arithmetic::power2::{pow2, lemma2_to64, lemma_pow2_pos};
use vstd::arithmetic::div_mod::{
    lemma_fundamental_div_mod_converse, lemma_mod_multiples_vanish, lemma_small_mod,
};
use vstd::slice::slice_subrange;
use crate::bitstream::{
    bit_at, lemma_acc_extract, lemma_acc_final, lemma_acc_push, lemma_sbits_bound,
    lemma_sbits_push, lemma_sbits_split, lemma_sbits_zero, lemma_symbol_value, sbits,
};
use crate::chars::{
    b32_char_to_val, b32_hex_char_to_val, b32_hex_val_to_char, b32_val_to_char, b64_char_to_val,
    b64_url_char_to_val, b64_url_val_to_char, b64_val_to_char,
};
use crate::error::Error;
use crate::model::{
    char_val_at, data_char_count, data_vals, decode_result, decoded_bytes, encode_spec,
    encoded_len_spec, expected_pads, ig_view, is_ignored, lemma_data_char_count_bounds,
    lemma_data_prefix_len_ge, lemma_data_prefix_len_is, lemma_encoded_len_ge, lemma_len_closed,
    lemma_strip_add, lemma_strip_step, data_prefix_len, padding_ok, seq_vals,
    strip,
};
use crate::variant::{
    Alphabet, Variant, char_val, in_alphabet, lemma_char_val_bound, val_char, width,
};
use vstd::bits::{lemma_u16_low_bits_mask_is_mod, lemma_u16_shl_is_mul, low_bits_mask};

verus! {

/// The alphabet character for a value, dispatched over the engine's
/// alphabets.
fn value_to_char(a: Alphabet, x: u8) -> (r: u8)
    requires
        !(a is LowerHex),
        (x as nat) < pow2(width(a)),
    ensures
        r == val_char(a, x as nat),
{
    proof {
        lemma2_to64();
    }
    match a {
        Alphabet::Base64Standard => b64_val_to_char(x),
        Alphabet::Base64UrlSafe => b64_url_val_to_char(x),
        Alphabet::Base32Standard => b32_val_to_char(x),
        Alphabet::Base32ExtendedHex => b32_hex_val_to_char(x),
        Alphabet::LowerHex => 0,
    }
}

/// The value of a character, or the sentinel `0xFF` outside the alphabet.
fn char_to_value(a: Alphabet, c: u8) -> (r: u8)
    requires
        !(a is LowerHex),
    ensures
        r == (if in_alphabet(a, c) {
            char_val(a, c) as u8
        } else {
            0xFFu8
        }),
{
    match a {
        Alphabet::Base64Standard => b64_char_to_val(c),
        Alphabet::Base64UrlSafe => b64_url_char_to_val(c),
        Alphabet::Base32Standard => b32_char_to_val(c),
        Alphabet::Base32ExtendedHex => b32_hex_char_to_val(c),
        Alphabet::LowerHex => 0,
    }
}

/// Exact length of the encoding of `n` bytes, or `Overflow` when it does
/// not fit in `usize`.
pub(crate) fn engine_encoded_len(n: usize, v: Variant) -> (r: Result<usize, Error>)
    requires
        !(v.alphabet is LowerHex),
    ensures
        match r {
            Ok(l) => l == encoded_len_spec(v, n as nat),
            Err(e) => e == Error::Overflow && encoded_len_spec(v, n as nat) > usize::MAX,
        },
{
    proof {
        lemma_len_closed(v, n as nat);
    }
    let base64 = matches!(v.alphabet, Alphabet::Base64Standard | Alphabet::Base64UrlSafe);
    let (groups, rem, per_group): (usize, usize, usize) = if base64 {
        (n / 3, n % 3, 4)
    } else {
        (n / 5, n % 5, 8)
    };
    let tail: usize = if v.padded {
        if rem == 0 {
            0
        } else {
            per_group
        }
    } else if base64 {
        if rem == 0 {
            0
        } else if rem == 1 {
            2
        } else {
            3
        }
    } else {
        if rem == 0 {
            0
        } else if rem == 1 {
            2
        } else if rem == 2 {
            4
        } else if rem == 3 {
            5
        } else {
            7
        }
    };
    let base = match groups.checked_mul(per_group) {
        Some(b) => b,
        None => {
            return Err(Error::Overflow);
        },
    };
    match base.checked_add(tail) {
        Some(l) => Ok(l),
        None => Err(Error::Overflow),
    }
}

/// Encode `bin` into a prefix of `out` under variant `v`.
///
/// Returns the written prefix, whose contents are exactly
/// `encode_spec(v, bin)`.  Fails with `Overflow`, writing nothing, exactly
/// when `out` is shorter than the encoded length.
pub(crate) fn engine_encode<'a>(out: &'a mut [u8], bin: &[u8], v: Variant) -> (r: Result<
    &'a [u8],
    Error,
>)
    requires
        !(v.alphabet is LowerHex),
    ensures
        final(out)@.len() == old(out)@.len(),
        match r {
            Ok(s) => {
                &&& encoded_len_spec(v, bin@.len()) <= old(out)@.len()
                &&& s@ == encode_spec(v, bin@)
                &&& final(out)@.subrange(0, encoded_len_spec(v, bin@.len())) == encode_spec(
                    v,
                    bin@,
                )
                &&& final(out)@.skip(encoded_len_spec(v, bin@.len())) == old(out)@.skip(
                    encoded_len_spec(v, bin@.len()),
                )
            },
            Err(e) => {
                &&& e == Error::Overflow
                &&& encoded_len_spec(v, bin@.len()) > old(out)@.len()
                &&& final(out)@ == old(out)@
            },
        },
{
    let n = bin.len();
    let olen = out.len();
    let ghost a = v.alphabet;
    let ghost m = data_char_count(a, n as nat);
    let ghost wn = width(a);
    proof {
        lemma_data_char_count_bounds(a, n as nat);
        lemma_encoded_len_ge(v, n as nat);
        lemma2_to64();
    }
    let elen = match engine_encoded_len(n, v) {
        Ok(l) => l,
        Err(e) => {
            return Err(e);
        },
    };
    if olen < elen {
        return Err(Error::Overflow);
    }
    let base64 = matches!(v.alphabet, Alphabet::Base64Standard | Alphabet::Base64UrlSafe);
    let w: usize = if base64 {
        6
    } else {
        5
    };
    let mask: u16 = if base64 {
        63
    } else {
        31
    };
    let mut acc: u16 = 0;
    let mut acc_len: usize = 0;
    let mut pos: usize = 0;
    let mut i: usize = 0;
    while i < n
        invariant
            n == bin@.len(),
            out@.len() == old(out)@.len(),
            elen == encoded_len_spec(v, n as nat),
            m == data_char_count(a, n as nat),
            a == v.alphabet,
            !(a is LowerHex),
            wn == width(a),
            w == wn,
            mask == pow2(wn) - 1,
            m * wn >= 8 * n,
            m * wn <= 8 * n + wn - 1,
            m <= elen <= out@.len(),
            0 <= i <= n,
            0 <= acc_len < w,
            pos * w + acc_len == 8 * i,
            0 <= pos,
            (acc as nat) % pow2(acc_len as nat) == sbits(bin@, 8, wn * pos, 8 * i),
            forall|k: int| 0 <= k < pos ==> out@[k] == val_char(a, char_val_at(bin@, wn, k)),
            forall|j: int| pos <= j < out@.len() ==> out@[j] == old(out)@[j],
        decreases n - i,
    {
        let b = bin[i];
        proof {
            lemma2_to64();
            let seg = sbits(bin@, 8, wn * (pos as int), 8 * (i as int));
            lemma_acc_push(acc, b as u16, 8, acc_len as nat, seg);
            lemma_sbits_split(bin@, 8, wn * (pos as int), 8 * (i as int), 8 * (i as int) + 8);
            lemma_symbol_value(bin@, 8, i as int);
            // pos stays at most m while more bits remain
            assert(pos <= m) by (nonlinear_arith)
                requires
                    pos * wn + acc_len == 8 * i,
                    8 * i < 8 * n,
                    m * wn >= 8 * n,
                    wn >= 1,
                    acc_len >= 0,
            ;
        }
        acc = (acc << 8u16) + (b as u16);
        acc_len += 8;
        i += 1;
        while acc_len >= w
            invariant
                n == bin@.len(),
                out@.len() == old(out)@.len(),
                m == data_char_count(a, n as nat),
                a == v.alphabet,
                !(a is LowerHex),
                wn == width(a),
                w == wn,
                mask == pow2(wn) - 1,
                m * wn >= 8 * n,
                m <= elen <= out@.len(),
                0 <= i <= n,
                0 <= acc_len < w + 8,
                pos * w + acc_len == 8 * i,
                0 <= pos,
                (acc as nat) % pow2(acc_len as nat) == sbits(bin@, 8, wn * pos, 8 * i),
                forall|k: int| 0 <= k < pos ==> out@[k] == val_char(a, char_val_at(bin@, wn, k)),
                forall|j: int| pos <= j < out@.len() ==> out@[j] == old(out)@[j],
            decreases acc_len,
        {
            proof {
                lemma2_to64();
                let seg = sbits(bin@, 8, wn * (pos as int), 8 * (i as int));
                lemma_acc_extract(acc, wn, acc_len as nat, seg);
                lemma_sbits_split(
                    bin@,
                    8,
                    wn * (pos as int),
                    wn * (pos as int) + wn,
                    8 * (i as int),
                );
                lemma_sbits_bound(bin@, 8, wn * (pos as int) + wn, 8 * (i as int));
                let hd = sbits(bin@, 8, wn * (pos as int), wn * (pos as int) + wn);
                let tl = sbits(bin@, 8, wn * (pos as int) + wn, 8 * (i as int));
                let d = pow2((acc_len - w) as nat);
                lemma_pow2_pos((acc_len - w) as nat);
                lemma_fundamental_div_mod_converse(seg as int, d as int, hd as int, tl as int);
                lemma_mod_multiples_vanish(hd as int, tl as int, d as int);
                lemma_small_mod(tl, d);
                // pos < m: one full character's bits are still pending
                assert(pos < m) by (nonlinear_arith)
                    requires
                        pos * wn + acc_len == 8 * i,
                        8 * i <= 8 * n,
                        m * wn >= 8 * n,
                        wn >= 1,
                        acc_len >= wn,
                ;
                assert(wn * ((pos + 1) as int) == wn * (pos as int) + wn) by (nonlinear_arith);
                assert(((pos + 1) as int) * wn == (pos as int) * wn + wn) by (nonlinear_arith);
            }
            acc_len -= w;
            let x = ((acc >> (acc_len as u16)) & mask) as u8;
            let c = value_to_char(v.alphabet, x);
            out[pos] = c;
            pos += 1;
        }
    }
    proof {
        assert(8 * i == 8 * n);
        if acc_len == 0 {
            // all characters are out: pos == m
            assert(pos == m) by (nonlinear_arith)
                requires
                    pos * wn == 8 * n,
                    m * wn >= 8 * n,
                    m * wn <= 8 * n + wn - 1,
                    wn >= 1,
            ;
        } else {
            assert(pos + 1 == m) by (nonlinear_arith)
                requires
                    pos * wn + acc_len == 8 * n,
                    m * wn >= 8 * n,
                    m * wn <= 8 * n + wn - 1,
                    wn >= 1,
                    0 < acc_len < wn,
            ;
        }
    }
    if acc_len > 0 {
        proof {
            let seg = sbits(bin@, 8, wn * (pos as int), 8 * (n as int));
            lemma_acc_final(acc, wn, acc_len as nat, seg);
            lemma_sbits_split(
                bin@,
                8,
                wn * (pos as int),
                8 * (n as int),
                wn * (pos as int) + wn,
            );
            assert forall|p: int| 8 * n <= p < wn * (pos as int) + wn implies bit_at(bin@, 8, p)
                == 0 by {
                assert(bin@.len() * 8 == 8 * n);
            }
            lemma_sbits_zero(bin@, 8, 8 * (n as int), wn * (pos as int) + wn);
            assert(wn * ((pos + 1) as int) == wn * (pos as int) + wn) by (nonlinear_arith);
        }
        let x = ((acc << ((w - acc_len) as u16)) & mask) as u8;
        let c = value_to_char(v.alphabet, x);
        out[pos] = c;
        pos += 1;
    }
    while pos < elen
        invariant
            out@.len() == old(out)@.len(),
            0 <= m <= pos <= elen <= out@.len(),
            a == v.alphabet,
            wn == width(a),
            forall|k: int| 0 <= k < m ==> out@[k] == val_char(a, char_val_at(bin@, wn, k)),
            forall|k: int| m <= k < pos ==> out@[k] == 61u8,
            forall|j: int| pos <= j < out@.len() ==> out@[j] == old(out)@[j],
        decreases elen - pos,
    {
        out[pos] = 61;
        pos += 1;
    }
    proof {
        assert(out@.subrange(0, elen as int) =~= encode_spec(v, bin@));
        assert(out@.skip(elen as int) =~= old(out)@.skip(elen as int));
    }
    Ok(slice_subrange(out, 0, elen))
}

/// Whether `c` occurs in `s`, by a linear scan.
pub(crate) fn contains_byte(s: &[u8], c: u8) -> (r: bool)
    ensures
        r == s@.contains(c),
{
    let n = s.len();
    let mut j: usize = 0;
    while j < n
        invariant
            n == s@.len(),
            0 <= j <= n,
            forall|k: int| 0 <= k < j ==> s@[k] != c,
        decreases n - j,
    {
        if s[j] == c {
            return true;
        }
        j += 1;
    }
    false
}

/// Whether the decoder must skip `c`.
pub(crate) fn is_ignored_byte(ignore: Option<&[u8]>, c: u8) -> (r: bool)
    ensures
        r == is_ignored(ig_view(ignore), c),
{
    match ignore {
        Some(ig) => contains_byte(ig, c),
        None => false,
    }
}

/// Decode `enc` into a prefix of `bin` under variant `v`, skipping the
/// bytes of `ignore`.
///
/// The outcome — the decoded prefix, or the error — is exactly
/// `decode_result(v, enc, ignore, bin.len())`.
pub(crate) fn engine_decode<'a>(
    bin: &'a mut [u8],
    enc: &[u8],
    ignore: Option<&[u8]>,
    v: Variant,
) -> (r: Result<&'a [u8], Error>)
    requires
        !(v.alphabet is LowerHex),
    ensures
        final(bin)@.len() == old(bin)@.len(),
        match r {
            Ok(s) => {
                &&& decode_result(v, enc@, ig_view(ignore), old(bin)@.len()) == Result::<_,
                Error>::Ok(s@)
                &&& s@.len() <= old(bin)@.len()
                &&& s@ == final(bin)@.subrange(0, s@.len() as int)
                &&& final(bin)@.skip(s@.len() as int) == old(bin)@.skip(s@.len() as int)
            },
            Err(e) => {
                &&& decode_result(v, enc@, ig_view(ignore), old(bin)@.len()) == Result::<Seq<u8>,
                Error>::Err(e)
            },
        },
{
    let n = enc.len();
    let maxlen = bin.len();
    let ghost a = v.alphabet;
    let ghost wn = width(a);
    let ghost igv = ig_view(ignore);
    let base64 = matches!(v.alphabet, Alphabet::Base64Standard | Alphabet::Base64UrlSafe);
    let w: usize = if base64 {
        6
    } else {
        5
    };
    let mut acc: u16 = 0;
    let mut acc_len: usize = 0;
    let mut bin_pos: usize = 0;
    let mut i: usize = 0;
    let mut terminated = false;
    let ghost mut g: Seq<u8> = Seq::empty();
    let ghost mut gv: Seq<u8> = Seq::empty();
    proof {
        lemma2_to64();
        assert(enc@.subrange(0, 0) =~= Seq::<u8>::empty());
        assert(g =~= strip(enc@.subrange(0, 0), igv));
        assert(gv =~= seq_vals(a, g));
    }
    while i < n && !terminated
        invariant
            n == enc@.len(),
            bin@.len() == old(bin)@.len(),
            maxlen == bin@.len(),
            a == v.alphabet,
            !(a is LowerHex),
            wn == width(a),
            w == wn,
            igv == ig_view(ignore),
            0 <= i <= n,
            g == strip(enc@.subrange(0, i as int), igv),
            gv == seq_vals(a, g),
            forall|k: int| 0 <= k < g.len() ==> in_alphabet(a, g[k]),
            0 <= 8 * bin_pos <= wn * (g.len() as int),
            acc_len == wn * (g.len() as int) - 8 * bin_pos,
            acc_len < 8,
            bin_pos <= maxlen,
            (acc as nat) % pow2(acc_len as nat) == sbits(gv, wn, 8 * bin_pos, wn * (g.len() as int)),
            forall|j: int|
                0 <= j < bin_pos ==> bin@[j] == sbits(gv, wn, 8 * j, 8 * j + 8) as u8,
            forall|j: int| bin_pos <= j < maxlen ==> bin@[j] == old(bin)@[j],
            terminated ==> i < n && !is_ignored(igv, enc@[i as int]) && !in_alphabet(
                a,
                enc@[i as int],
            ),
        decreases n - i, (if terminated {
            0int
        } else {
            1int
        }),
    {
        let c = enc[i];
        let ign = is_ignored_byte(ignore, c);
        if ign {
            proof {
                lemma_strip_step(enc@, igv, i as int);
            }
            i += 1;
        } else {
            let d = char_to_value(v.alphabet, c);
            proof {
                if in_alphabet(a, c) {
                    lemma_char_val_bound(a, c);
                    lemma2_to64();
                }
            }
            if d == 255 {
                terminated = true;
            } else {
                proof {
                    lemma2_to64();
                    lemma_strip_step(enc@, igv, i as int);
                    let g2 = g.push(c);
                    let gv2 = gv.push(d);
                    assert(gv2 =~= seq_vals(a, g2));
                    let dc = g.len() as int;
                    let bp = bin_pos as int;
                    assert(wn * (dc + 1) == wn * dc + wn) by (nonlinear_arith);
                    let seg = sbits(gv, wn, 8 * bp, wn * dc);
                    lemma_sbits_push(gv, wn, d, 8 * bp, wn * dc);
                    lemma_symbol_value(gv2, wn, dc);
                    lemma_sbits_split(gv2, wn, 8 * bp, wn * dc, wn * dc + wn);
                    lemma_acc_push(acc, d as u16, wn, acc_len as nat, seg);
                    // bytes already written keep their values in the grown
                    // stream
                    assert forall|j: int| 0 <= j < bin_pos implies bin@[j] == sbits(
                        gv2,
                        wn,
                        8 * j,
                        8 * j + 8,
                    ) as u8 by {
                        lemma_sbits_push(gv, wn, d, 8 * j, 8 * j + 8);
                    }
                    g = g2;
                    gv = gv2;
                }
                acc = (acc << (w as u16)) + (d as u16);
                acc_len += w;
                i += 1;
                if acc_len >= 8 {
                    proof {
                        lemma2_to64();
                        let dc2 = g.len() as int;
                        let bp = bin_pos as int;
                        let l2 = acc_len as nat;
                        let seg2 = sbits(gv, wn, 8 * bp, wn * dc2);
                        lemma_acc_extract(acc, 8, l2, seg2);
                        lemma_sbits_split(gv, wn, 8 * bp, 8 * bp + 8, wn * dc2);
                        lemma_sbits_bound(gv, wn, 8 * bp + 8, wn * dc2);
                        let hd = sbits(gv, wn, 8 * bp, 8 * bp + 8);
                        let tl = sbits(gv, wn, 8 * bp + 8, wn * dc2);
                        let dp = pow2((l2 - 8) as nat);
                        lemma_pow2_pos((l2 - 8) as nat);
                        lemma_fundamental_div_mod_converse(
                            seg2 as int,
                            dp as int,
                            hd as int,
                            tl as int,
                        );
                        lemma_mod_multiples_vanish(hd as int, tl as int, dp as int);
                        lemma_small_mod(tl, dp);
                    }
                    acc_len -= 8;
                    if bin_pos >= maxlen {
                        proof {
                            // every data character seen so far is part of the
                            // stripped input, so the full decode overflows too
                            assert(enc@ =~= enc@.subrange(0, i as int) + enc@.subrange(
                                i as int,
                                n as int,
                            ));
                            lemma_strip_add(
                                enc@.subrange(0, i as int),
                                enc@.subrange(i as int, n as int),
                                igv,
                            );
                            let t = strip(enc@, igv);
                            let dc2 = g.len() as int;
                            assert(forall|k: int| 0 <= k < dc2 ==> t[k] == g[k]);
                            lemma_data_prefix_len_ge(a, t, dc2);
                            let q = data_prefix_len(a, t);
                            assert(wn * q >= wn * dc2) by (nonlinear_arith)
                                requires
                                    q >= dc2,
                                    wn >= 1,
                            ;
                            assert(wn * dc2 >= 8 * maxlen + 8);
                            let nb = (wn * q) / 8;
                            assert(8 * (maxlen + 1) == 8 * maxlen + 8);
                            vstd::arithmetic::div_mod::lemma_div_is_ordered(
                                8 * (maxlen + 1),
                                wn * q,
                                8,
                            );
                            lemma_fundamental_div_mod_converse(
                                8 * (maxlen as int + 1),
                                8,
                                maxlen as int + 1,
                                0,
                            );
                            assert(nb > maxlen);
                        }
                        return Err(Error::Overflow);
                    }
                    let b = ((acc >> (acc_len as u16)) & 0xFF) as u8;
                    bin[bin_pos] = b;
                    bin_pos += 1;
                }
            }
        }
    }
    // the whole input is now classified: data prefix, then the rest
    proof {
        lemma2_to64();
        if terminated {
            let c0 = enc@[i as int];
            assert(enc@ =~= enc@.subrange(0, i as int) + enc@.subrange(i as int, n as int));
            lemma_strip_add(enc@.subrange(0, i as int), enc@.subrange(i as int, n as int), igv);
            let rest = enc@.subrange(i as int, n as int);
            assert(rest =~= seq![c0] + enc@.subrange(i as int + 1, n as int));
            lemma_strip_add(seq![c0], enc@.subrange(i as int + 1, n as int), igv);
            crate::model::lemma_strip_single(c0, igv);
            let t = strip(enc@, igv);
            assert(forall|k: int| 0 <= k < g.len() ==> t[k] == g[k]);
            assert(t[g.len() as int] == c0);
            lemma_data_prefix_len_is(a, t, g.len() as int);
        } else {
            assert(enc@.subrange(0, i as int) =~= enc@);
            lemma_data_prefix_len_is(a, strip(enc@, igv), g.len() as int);
        }
        let t = strip(enc@, igv);
        assert(data_prefix_len(a, t) == g.len());
        assert(data_vals(a, t) =~= gv);
        lemma_fundamental_div_mod_converse(
            wn * (g.len() as int),
            8,
            bin_pos as int,
            acc_len as int,
        );
        assert((wn * data_prefix_len(a, t)) / 8 == bin_pos);
        assert((wn * data_prefix_len(a, t)) % 8 == acc_len);
    }
    proof {
        lemma_u16_shl_is_mul(1u16, acc_len as u16);
        lemma2_to64();
        lemma_u16_low_bits_mask_is_mod(acc, acc_len as nat);
        assert(low_bits_mask(acc_len as nat) == pow2(acc_len as nat) - 1);
    }
    let lm = (1u16 << (acc_len as u16)) - 1;
    if acc_len > 4 || (acc & lm) != 0 {
        return Err(Error::InvalidInput);
    }
    if !v.padded {
        if terminated {
            return Err(Error::InvalidInput);
        }
    } else {
        if !terminated {
            if acc_len != 0 {
                return Err(Error::InvalidInput);
            }
        } else {
            let expected: usize = if base64 {
                acc_len / 2
            } else {
                if acc_len == 0 {
                    6
                } else if acc_len == 1 {
                    3
                } else if acc_len == 2 {
                    6
                } else if acc_len == 3 {
                    1
                } else {
                    4
                }
            };
            let mut pads: usize = 0;
            let mut j: usize = i;
            while j < n
                invariant
                    n == enc@.len(),
                    bin@.len() == old(bin)@.len(),
                    maxlen == bin@.len(),
                    a == v.alphabet,
                    !(a is LowerHex),
                    wn == width(a),
                    w == wn,
                    igv == ig_view(ignore),
                    v.padded,
                    terminated,
                    i < n,
                    !is_ignored(igv, enc@[i as int]),
                    !in_alphabet(a, enc@[i as int]),
                    g == strip(enc@.subrange(0, i as int), igv),
                    gv == seq_vals(a, g),
                    forall|k: int| 0 <= k < g.len() ==> in_alphabet(a, g[k]),
                    data_prefix_len(a, strip(enc@, igv)) == g.len(),
                    data_vals(a, strip(enc@, igv)) == gv,
                    (wn * (g.len() as int)) / 8 == bin_pos,
                    (wn * (g.len() as int)) % 8 == acc_len,
                    acc_len <= 4,
                    sbits(gv, wn, 8 * bin_pos, wn * (g.len() as int)) == 0,
                    bin_pos <= maxlen,
                    expected == expected_pads(a, acc_len as int),
                    forall|j2: int|
                        0 <= j2 < bin_pos ==> bin@[j2] == sbits(gv, wn, 8 * j2, 8 * j2 + 8) as u8,
                    forall|j2: int| bin_pos <= j2 < maxlen ==> bin@[j2] == old(bin)@[j2],
                    i <= j <= n,
                    pads <= j - i,
                    strip(enc@.subrange(0, j as int), igv) == g + Seq::new(
                        pads as nat,
                        |x: int| 61u8,
                    ),
                    j == i || pads >= 1,
                decreases n - j,
            {
                let c = enc[j];
                let ign = is_ignored_byte(ignore, c);
                proof {
                    lemma_strip_step(enc@, igv, j as int);
                }
                if ign {
                } else if c == 61 {
                    proof {
                        assert((g + Seq::new(pads as nat, |x: int| 61u8)).push(61u8) =~= g
                            + Seq::new((pads + 1) as nat, |x: int| 61u8));
                    }
                    pads += 1;
                } else {
                    proof {
                        // the stripped input holds a stray byte after the
                        // data and pad run, so no padding shape fits
                        assert(enc@ =~= enc@.subrange(0, j as int) + enc@.subrange(
                            j as int,
                            n as int,
                        ));
                        lemma_strip_add(
                            enc@.subrange(0, j as int),
                            enc@.subrange(j as int, n as int),
                            igv,
                        );
                        let rest = enc@.subrange(j as int, n as int);
                        assert(rest =~= seq![c] + enc@.subrange(j as int + 1, n as int));
                        lemma_strip_add(seq![c], enc@.subrange(j as int + 1, n as int), igv);
                        crate::model::lemma_strip_single(c, igv);
                        let t = strip(enc@, igv);
                        let dc = g.len() as int;
                        assert(t[dc + pads] == c);
                        assert(!padding_ok(v, t, dc, acc_len as int));
                    }
                    return Err(Error::InvalidInput);
                }
                j += 1;
            }
            proof {
                assert(enc@.subrange(0, n as int) =~= enc@);
            }
            if pads != expected {
                proof {
                    let t = strip(enc@, igv);
                    let dc = g.len() as int;
                    assert(t.len() == dc + pads);
                    assert(!padding_ok(v, t, dc, acc_len as int));
                }
                return Err(Error::InvalidInput);
            }
        }
    }
    proof {
        let t = strip(enc@, igv);
        let dc = g.len() as int;
        if v.padded && terminated {
            assert(t.len() == dc + expected_pads(a, acc_len as int));
            assert(forall|k: int| dc <= k < t.len() ==> t[k] == 61u8);
        }
        assert(padding_ok(v, t, dc, acc_len as int));
        assert(bin@.subrange(0, bin_pos as int) =~= decoded_bytes(gv, wn));
        assert(decode_result(v, enc@, igv, old(bin)@.len()) == Result::<_, Error>::Ok(
            decoded_bytes(gv, wn),
        ));
    }
    let res = slice_subrange(bin, 0, bin_pos);
    Ok(res)
}

} // verus!
